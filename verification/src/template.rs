//! Operator-supplied templates over the document.

use minijinja::Environment;
use serde_json::Value;
use vstd::prelude::*;
use crate::chars;
use crate::config::TemplateSpec;
use crate::converters::extract::Extractor;
use crate::converters::json;
use crate::converters::json::{Json, JsonV, array_of, bool_value, null_value, number_value};
use crate::converters::json::{object_of, string_value, to_json};
use crate::cx::Limits;
use crate::error;
use crate::error::{ConvertError, ErrorV, Warning, WarningKind, WarningV};
use crate::guarantees;
use crate::ir;
use crate::ir::{Block, BlockV, Document, DocumentV, ImageRef, ImageRefV, Inline};
use crate::ir::{SpanV, Table, TableV};
use crate::markdown;
use crate::markdown::{Page, Sheet};
use crate::render;
use crate::render::{FrontMatter, RenderOptions, Rendered, TableStyle};
use crate::render::{escape_cell_text, front_of, render_piece};
use crate::stream_info::{StreamInfo, StreamInfoV};
use crate::text;

verus! {

/// `minijinja::Environment`, carried through as an opaque value; the templates
/// in it are [`template_list`].
#[verifier::external_type_specification]
#[verifier::external_body]
pub struct ExEnvironment<'source>(Environment<'source>);

/// The templates that an environment holds, with their names.
pub uninterp spec fn template_list(env: Environment<'static>) -> Seq<(Seq<char>, Seq<char>)>;

/// What parsing a template gave.
pub enum Parsed {
    Sound,
    /// The template does not parse, with this message.
    Faulty(String),
    /// The parser panicked, and the host caught it.
    Panicked,
}

/// The value of [`Parsed`].
#[verifier::ext_equal]
pub enum ParsedV {
    Sound,
    Faulty(Seq<char>),
    Panicked,
}

impl View for Parsed {
    type V = ParsedV;

    open spec fn view(&self) -> ParsedV {
        match *self {
            Parsed::Sound => ParsedV::Sound,
            Parsed::Faulty(m) => ParsedV::Faulty(m@),
            Parsed::Panicked => ParsedV::Panicked,
        }
    }
}

/// What running a template wrote.
pub enum Written {
    Text(String),
    /// There is no such template, with this message.
    Missing(String),
    /// The template failed, with this message.
    Failed(String),
    /// The template panicked, and the host caught it.
    Panicked,
}

/// The value of [`Written`].
#[verifier::ext_equal]
pub enum WrittenV {
    Text(Seq<char>),
    Missing(Seq<char>),
    Failed(Seq<char>),
    Panicked,
}

impl View for Written {
    type V = WrittenV;

    open spec fn view(&self) -> WrittenV {
        match *self {
            Written::Text(s) => WrittenV::Text(s@),
            Written::Missing(m) => WrittenV::Missing(m@),
            Written::Failed(m) => WrittenV::Failed(m@),
            Written::Panicked => WrittenV::Panicked,
        }
    }
}

/// `minijinja::Environment::new`, with a loader that finds nothing and the
/// function `gfm_table`, which is [`table_text`]: no templates yet.
#[verifier::external_body]
fn new_environment() -> (r: Environment<'static>)
    ensures
        template_list(r) == Seq::<(Seq<char>, Seq<char>)>::empty(),
{
    let mut env = Environment::new();
    env.set_loader(|_| Ok(None));
    env.add_function("gfm_table", |v: minijinja::Value| match serde_json::to_value(&v) {
        Ok(j) => Ok(table_text(&j)),
        Err(e) => Err(minijinja::Error::new(
            minijinja::ErrorKind::InvalidOperation,
            format!("gfm_table: {e}"),
        )),
    });
    env
}

/// What a template may use besides the document.
#[derive(Debug, Clone, Copy)]
pub struct RenderExtras<'a> {
    /// Where the document came from.
    pub source: Option<&'a StreamInfo>,
    /// The time, as the caller wants it shown.
    pub now: Option<&'a str>,
}

impl<'a> Default for RenderExtras<'a> {
    fn default() -> (r: Self)
        ensures
            r.source is None,
            r.now is None,
    {
        RenderExtras { source: None, now: None }
    }
}

/// The value of [`RenderExtras`].
#[verifier::ext_equal]
pub struct ExtrasV {
    pub source: Option<StreamInfoV>,
    pub now: Option<Seq<char>>,
}

impl<'a> View for RenderExtras<'a> {
    type V = ExtrasV;

    open spec fn view(&self) -> ExtrasV {
        ExtrasV {
            source: match self.source {
                Some(s) => Some(s@),
                None => None,
            },
            now: match self.now {
                Some(n) => Some(n@),
                None => None,
            },
        }
    }
}

/// Compiled templates.
pub struct Templates {
    env: Environment<'static>,
    has_document: bool,
    block_names: Vec<String>,
}

/// The value of [`Templates`].
#[verifier::ext_equal]
pub struct TemplatesV {
    /// What the host runs the templates from.
    pub env: Environment<'static>,
    pub has_document: bool,
    pub block_names: Seq<Seq<char>>,
}

impl View for Templates {
    type V = TemplatesV;

    closed spec fn view(&self) -> TemplatesV {
        TemplatesV {
            env: self.env,
            has_document: self.has_document,
            block_names: chars::texts(self.block_names@),
        }
    }
}

/// The value of [`TemplateSpec`]: its document template, and its block
/// templates in the order of their names.
#[verifier::ext_equal]
pub struct SpecV {
    pub document: Option<Seq<char>>,
    pub blocks: Seq<(Seq<char>, Seq<char>)>,
}

pub open spec fn spec_view(s: TemplateSpec) -> SpecV {
    SpecV {
        document: chars::opt(s.document),
        blocks: chars::sorted(ir::pairs_view(s.blocks@)),
    }
}

/// The blocks that can have a template.
pub open spec fn known() -> Seq<Seq<char>> {
    seq![
        "heading"@,
        "paragraph"@,
        "list"@,
        "table"@,
        "code"@,
        "quote"@,
        "image"@,
        "rule"@,
        "embedded"@,
    ]
}

pub open spec fn unknown_block(stage: Seq<char>, name: Seq<char>) -> ErrorV {
    ErrorV::Template {
        stage,
        message: "unknown block template "@ + text::quoted_debug(name) + " (known: "@ + chars::join(
            known(),
            ", "@,
        ) + ")"@,
    }
}

/// What follows from parsing the document's template.
pub open spec fn parsed_document(p: ParsedV) -> Result<(), ErrorV> {
    match p {
        ParsedV::Sound => Ok(()),
        ParsedV::Faulty(m) => Err(ErrorV::Template { stage: "parse document"@, message: m }),
        ParsedV::Panicked => Err(
            ErrorV::Template { stage: "parse document"@, message: "the parser panicked"@ },
        ),
    }
}

/// The same for a block's template.
pub open spec fn parsed_block(name: Seq<char>, p: ParsedV) -> Result<(), ErrorV> {
    match p {
        ParsedV::Sound => Ok(()),
        ParsedV::Faulty(m) => Err(
            ErrorV::Template { stage: "parse blocks"@, message: name + ": "@ + m },
        ),
        ParsedV::Panicked => Err(
            ErrorV::Template {
                stage: "parse blocks"@,
                message: name + ": "@ + "the parser panicked"@,
            },
        ),
    }
}

/// What compiling the block templates from the `i`-th on may give.
pub open spec fn compile_from<X: Extractor>(
    tools: X,
    blocks: Seq<(Seq<char>, Seq<char>)>,
    i: int,
    t: TemplatesV,
    r: Result<TemplatesV, ErrorV>,
) -> bool
    decreases blocks.len() - i,
{
    if i < 0 || i >= blocks.len() {
        r == Ok::<TemplatesV, ErrorV>(t)
    } else {
        let name = blocks[i].0;
        if !known().contains(name) {
            r == Err::<TemplatesV, ErrorV>(unknown_block("parse blocks"@, name))
        } else {
            exists|env: Environment<'static>, p: ParsedV| #[trigger]
                tools.may_add(t.env, name, blocks[i].1, env, p) && match parsed_block(name, p) {
                    Err(e) => r == Err::<TemplatesV, ErrorV>(e),
                    Ok(_) => compile_from(tools, blocks, i + 1, with_block(t, env, name), r),
                }
        }
    }
}

/// The templates once a block's template was added.
pub open spec fn with_block(
    t: TemplatesV,
    env: Environment<'static>,
    name: Seq<char>,
) -> TemplatesV {
    TemplatesV { env, block_names: t.block_names.push(name), ..t }
}

/// What compiling templates may give: the host parses the document's template
/// first, then the blocks' in the order of their names, each into what the one
/// before it left; the first that is not sound is the error.
pub open spec fn compiles<X: Extractor>(
    tools: X,
    s: SpecV,
    r: Result<TemplatesV, ErrorV>,
) -> bool {
    exists|empty: Environment<'static>| #[trigger]
        template_list(empty) == Seq::<(Seq<char>, Seq<char>)>::empty() && compiles_into(
            tools,
            empty,
            s,
            r,
        )
}

pub open spec fn compiles_into<X: Extractor>(
    tools: X,
    empty: Environment<'static>,
    s: SpecV,
    r: Result<TemplatesV, ErrorV>,
) -> bool {
    match s.document {
        Some(d) => exists|env: Environment<'static>, p: ParsedV| #[trigger]
            tools.may_add(empty, "__document"@, d, env, p) && match parsed_document(p) {
                Err(e) => r == Err::<TemplatesV, ErrorV>(e),
                Ok(_) => compile_from(
                    tools,
                    s.blocks,
                    0,
                    TemplatesV { env, has_document: true, block_names: seq![] },
                    r,
                ),
            },
        None => compile_from(
            tools,
            s.blocks,
            0,
            TemplatesV { env: empty, has_document: false, block_names: seq![] },
            r,
        ),
    }
}

pub open spec fn compiled_view(r: Result<Templates, ConvertError>) -> Result<TemplatesV, ErrorV> {
    match r {
        Ok(t) => Ok(t@),
        Err(e) => Err(e@),
    }
}

/// The name of the template that a block uses.
pub open spec fn block_name(b: BlockV) -> Seq<char> {
    match b {
        BlockV::Heading { .. } => "heading"@,
        BlockV::Paragraph(_) => "paragraph"@,
        BlockV::List { .. } => "list"@,
        BlockV::Table(_) => "table"@,
        BlockV::Code { .. } => "code"@,
        BlockV::Quote(_) => "quote"@,
        BlockV::Image(_) => "image"@,
        BlockV::Rule => "rule"@,
        BlockV::Raw { .. } => "raw"@,
        BlockV::RawHtml { .. } => "raw"@,
        BlockV::Embedded { .. } => "embedded"@,
    }
}

pub open spec fn object(pairs: Seq<(Seq<char>, JsonV)>) -> JsonV {
    JsonV::Object(chars::sorted(pairs))
}

pub open spec fn opt_str(o: Option<Seq<char>>) -> JsonV {
    match o {
        Some(s) => JsonV::Str(s),
        None => JsonV::Null,
    }
}

/// The texts of the paragraphs among the blocks.
pub open spec fn paragraph_texts(bs: Seq<BlockV>) -> Seq<Seq<char>>
    decreases bs.len(),
{
    if bs.len() == 0 {
        seq![]
    } else {
        let t = paragraph_texts(bs.drop_last());
        match bs.last() {
            BlockV::Paragraph(i) => t.push(ir::plain(i)),
            _ => t,
        }
    }
}

/// A block's text, where it has one.
pub open spec fn block_text(b: BlockV) -> Seq<char> {
    match b {
        BlockV::Heading { text, .. } => ir::plain(text),
        BlockV::Paragraph(t) => ir::plain(t),
        BlockV::Code { text, .. } => text,
        BlockV::Quote(inner) => chars::join(paragraph_texts(inner), "\n\n"@),
        BlockV::Raw { markdown } => markdown,
        BlockV::RawHtml { html } => html,
        _ => seq![],
    }
}

pub open spec fn block_texts(bs: Seq<BlockV>) -> Seq<Seq<char>> {
    Seq::new(bs.len(), |i: int| block_text(bs[i]))
}

pub open spec fn item_values(items: Seq<Seq<BlockV>>) -> Seq<JsonV> {
    Seq::new(items.len(), |i: int| JsonV::Str(chars::join(block_texts(items[i]), " "@)))
}

pub open spec fn plain_row(cells: Seq<Seq<SpanV>>) -> Seq<Seq<char>> {
    Seq::new(cells.len(), |i: int| ir::plain(cells[i]))
}

pub open spec fn plain_rows(rows: Seq<Seq<Seq<SpanV>>>) -> Seq<Seq<Seq<char>>> {
    Seq::new(rows.len(), |i: int| plain_row(rows[i]))
}

pub open spec fn strings(s: Seq<Seq<char>>) -> JsonV {
    JsonV::Array(Seq::new(s.len(), |i: int| JsonV::Str(s[i])))
}

pub open spec fn string_rows(rows: Seq<Seq<Seq<char>>>) -> JsonV {
    JsonV::Array(Seq::new(rows.len(), |i: int| strings(rows[i])))
}

pub open spec fn header_value(h: Option<Seq<Seq<SpanV>>>) -> JsonV {
    match h {
        Some(cells) => strings(plain_row(cells)),
        None => JsonV::Null,
    }
}

/// The kind and the target of an image's source.
pub open spec fn source_parts(s: ImageRefV) -> (Seq<char>, Seq<char>) {
    match s {
        ImageRefV::Url(u) => ("url"@, u),
        ImageRefV::Resource(u) => ("resource"@, u),
        ImageRefV::Embedded(n) => ("embedded"@, n),
        ImageRefV::Absent => ("none"@, seq![]),
    }
}

/// What a template sees of a block, besides its type.
pub open spec fn block_members(b: BlockV) -> Seq<(Seq<char>, JsonV)> {
    match b {
        BlockV::Heading { level, text } => seq![
            ("level"@, JsonV::Number(chars::decimal(level as nat))),
            ("text"@, JsonV::Str(ir::plain(text))),
        ],
        BlockV::Paragraph(t) => seq![("text"@, JsonV::Str(ir::plain(t)))],
        BlockV::List { ordered, items } => seq![
            ("ordered"@, JsonV::Bool(ordered)),
            ("items"@, JsonV::Array(item_values(items))),
        ],
        BlockV::Table(t) => seq![
            ("caption"@, opt_str(t.caption)),
            ("header"@, header_value(t.header)),
            ("rows"@, string_rows(plain_rows(t.rows))),
        ],
        BlockV::Code { language, text } => seq![
            ("language"@, opt_str(language)),
            ("text"@, JsonV::Str(text)),
        ],
        BlockV::Quote(inner) => seq![
            ("text"@, JsonV::Str(chars::join(paragraph_texts(inner), "\n\n"@))),
        ],
        BlockV::Image(img) => seq![
            ("alt"@, opt_str(img.alt)),
            ("caption"@, opt_str(img.caption)),
            ("source_kind"@, JsonV::Str(source_parts(img.source).0)),
            ("source"@, JsonV::Str(source_parts(img.source).1)),
        ],
        BlockV::Rule => seq![],
        BlockV::Raw { markdown } => seq![("text"@, JsonV::Str(markdown))],
        BlockV::RawHtml { html } => seq![("text"@, JsonV::Str(html))],
        BlockV::Embedded { name, doc } => seq![
            ("name"@, JsonV::Str(name)),
            ("title"@, opt_str(doc.title)),
        ],
    }
}

/// What a template sees of a block.
pub open spec fn spec_block_value(b: BlockV) -> JsonV {
    object(seq![("type"@, JsonV::Str(block_name(b)))] + block_members(b))
}

pub open spec fn block_values(bs: Seq<BlockV>) -> Seq<JsonV> {
    Seq::new(bs.len(), |i: int| spec_block_value(bs[i]))
}

pub open spec fn extra_values(extra: Seq<(Seq<char>, Seq<char>)>) -> Seq<(Seq<char>, JsonV)> {
    Seq::new(extra.len(), |i: int| (extra[i].0, JsonV::Str(extra[i].1)))
}

pub open spec fn warning_value(w: WarningV) -> JsonV {
    object(seq![("kind"@, JsonV::Str(w.kind.name())), ("message"@, JsonV::Str(w.message))])
}

pub open spec fn warning_values(ws: Seq<WarningV>) -> Seq<JsonV> {
    Seq::new(ws.len(), |i: int| warning_value(ws[i]))
}

pub open spec fn metadata_value(m: ir::MetadataV) -> JsonV {
    object(
        seq![
            ("author"@, opt_str(m.author)),
            ("created"@, opt_str(m.created)),
            ("modified"@, opt_str(m.modified)),
            ("language"@, opt_str(m.language)),
            ("extra"@, object(extra_values(m.extra))),
        ],
    )
}

/// What a template sees of a document.
pub open spec fn spec_document_value(d: DocumentV) -> JsonV {
    object(
        seq![
            ("title"@, opt_str(d.title)),
            ("metadata"@, metadata_value(d.metadata)),
            ("blocks"@, JsonV::Array(block_values(d.blocks))),
            ("warnings"@, JsonV::Array(warning_values(d.warnings))),
        ],
    )
}

/// What a template sees of the document's source.
pub open spec fn spec_source_value(s: Option<StreamInfoV>) -> JsonV {
    match s {
        Some(i) => object(
            seq![
                ("filename"@, opt_str(i.filename)),
                ("mimetype"@, opt_str(i.mimetype)),
                ("extension"@, opt_str(i.extension)),
                ("charset"@, opt_str(i.charset)),
                ("uri"@, opt_str(i.url)),
            ],
        ),
        None => object(seq![]),
    }
}

pub open spec fn block_context(b: BlockV) -> JsonV {
    object(seq![("block"@, spec_block_value(b))])
}

pub open spec fn or_empty(o: Option<Seq<char>>) -> Seq<char> {
    match o {
        Some(s) => s,
        None => seq![],
    }
}

pub open spec fn document_context(d: DocumentV, body: Seq<char>, x: ExtrasV) -> JsonV {
    object(
        seq![
            ("doc"@, spec_document_value(d)),
            ("body"@, JsonV::Str(body)),
            ("source"@, spec_source_value(x.source)),
            ("now"@, JsonV::Str(or_empty(x.now))),
        ],
    )
}

/// How many leading characters fit into `max` bytes.
pub open spec fn fitting(s: Seq<char>, max: nat) -> int
    decreases s.len(),
{
    if s.len() == 0 || chars::width(s[0]) > max {
        0
    } else {
        1 + fitting(s.skip(1), (max - chars::width(s[0])) as nat)
    }
}

pub open spec fn cut_warning(max: nat) -> WarningV {
    WarningV {
        kind: WarningKind::Truncated,
        message: "templated output reached max_output_bytes ("@ + chars::decimal(max) + ")"@,
    }
}

/// What is kept of a text that may take `max` bytes: everything, or the whole
/// lines that fit; where not even one line does, as much as fits.
pub open spec fn kept_text(s: Seq<char>, max: nat) -> Seq<char> {
    if chars::byte_len(s) <= max {
        s
    } else {
        let head = s.take(fitting(s, max));
        match chars::rfind(head, "\n"@) {
            Some(i) => head.take(i),
            None => head,
        }
    }
}

pub open spec fn spec_truncate_at_line(s: Seq<char>, max: nat) -> Seq<char> {
    chars::trim_end(kept_text(s, max)) + "\n"@
}

pub open spec fn truncation_warnings(s: Seq<char>, max: nat) -> Seq<WarningV> {
    if chars::byte_len(s) <= max {
        seq![]
    } else {
        seq![cut_warning(max)]
    }
}

/// The options for what stands inside a document template.
pub open spec fn body_options(t: TemplatesV, opts: RenderOptions) -> RenderOptions {
    if t.has_document {
        RenderOptions { front_matter: FrontMatter::Off, ..opts }
    } else {
        opts
    }
}

/// What a block's template wrote, or why it failed.
pub open spec fn written_block(name: Seq<char>, wrote: WrittenV) -> Result<Seq<char>, ErrorV> {
    match wrote {
        WrittenV::Text(s) => Ok(s),
        WrittenV::Missing(m) => Err(ErrorV::Template { stage: "load block"@, message: m }),
        WrittenV::Failed(m) => Err(
            ErrorV::Template { stage: "render block"@, message: name + ": "@ + m },
        ),
        WrittenV::Panicked => Err(
            ErrorV::Template {
                stage: "render block"@,
                message: name + ": "@ + "the template panicked"@,
            },
        ),
    }
}

/// What the document's template wrote, cut to size, or why it failed.
pub open spec fn written_document(wrote: WrittenV, warnings: Seq<WarningV>, max: nat) -> Result<
    (Seq<char>, Seq<WarningV>),
    ErrorV,
> {
    match wrote {
        WrittenV::Text(s) => Ok(
            (spec_truncate_at_line(s, max), warnings + truncation_warnings(s, max)),
        ),
        WrittenV::Missing(m) => Err(ErrorV::Template { stage: "load document"@, message: m }),
        WrittenV::Failed(m) => Err(ErrorV::Template { stage: "render document"@, message: m }),
        WrittenV::Panicked => Err(
            ErrorV::Template { stage: "render document"@, message: "the template panicked"@ },
        ),
    }
}

/// What the block's template may have written, where it has one.
pub open spec fn block_wrote<X: Extractor>(
    tools: X,
    t: TemplatesV,
    b: BlockV,
    wrote: WrittenV,
) -> bool {
    t.block_names.contains(block_name(b)) ==> tools.may_write(
        t.env,
        block_name(b),
        block_context(b),
        wrote,
    )
}

/// One block, by what its template wrote or as the renderer writes it, and the
/// warnings for it.
pub open spec fn block_piece(
    t: TemplatesV,
    b: BlockV,
    wrote: WrittenV,
    opts: RenderOptions,
    limits: Limits,
) -> Result<(Seq<char>, Seq<WarningV>), ErrorV> {
    let name = block_name(b);
    if t.block_names.contains(name) {
        match written_block(name, wrote) {
            Ok(s) => Ok((s, seq![])),
            Err(e) => Err(e),
        }
    } else {
        let p = render::page(opts, limits);
        let f = markdown::fragment(p, seq![b]);
        Ok((f.out, markdown::reported(p, f)))
    }
}

/// What the blocks from the `i`-th on may become, behind what is already written.
pub open spec fn blocks_from<X: Extractor>(
    tools: X,
    t: TemplatesV,
    bs: Seq<BlockV>,
    i: int,
    out: (Seq<char>, Seq<WarningV>),
    opts: RenderOptions,
    limits: Limits,
    r: Result<(Seq<char>, Seq<WarningV>), ErrorV>,
) -> bool
    decreases bs.len() - i,
{
    if i < 0 || i >= bs.len() {
        r == Ok::<(Seq<char>, Seq<WarningV>), ErrorV>(out)
    } else {
        exists|wrote: WrittenV| #[trigger]
            block_wrote(tools, t, bs[i], wrote) && (match block_piece(
                t,
                bs[i],
                wrote,
                opts,
                limits,
            ) {
                Err(e) => r == Err::<(Seq<char>, Seq<WarningV>), ErrorV>(e),
                Ok(p) => {
                    let piece = chars::trim(p.0);
                    let next = out.0 + piece + "\n\n"@;
                    let ws = out.1 + p.1;
                    if piece.len() == 0 {
                        blocks_from(tools, t, bs, i + 1, (out.0, ws), opts, limits, r)
                    } else if chars::byte_len(next) > limits.max_output_bytes {
                        r == Ok::<(Seq<char>, Seq<WarningV>), ErrorV>((next, ws))
                    } else {
                        blocks_from(tools, t, bs, i + 1, (next, ws), opts, limits, r)
                    }
                },
            })
    }
}

/// The value of a rendering's outcome: the text and the warnings.
pub open spec fn rendered_view(r: Result<Rendered, ConvertError>) -> Result<
    (Seq<char>, Seq<WarningV>),
    ErrorV,
> {
    match r {
        Ok(x) => Ok((x.markdown@, error::warnings_view(x.warnings@))),
        Err(e) => Err(e@),
    }
}

/// What the body of a document may be, with the warnings of the renderer.
pub open spec fn templated_body<X: Extractor>(
    tools: X,
    t: TemplatesV,
    d: DocumentV,
    opts: RenderOptions,
    limits: Limits,
    body: Result<(Seq<char>, Seq<WarningV>), ErrorV>,
) -> bool {
    let p = render::page(body_options(t, opts), limits);
    if t.block_names.len() == 0 {
        body == Ok::<(Seq<char>, Seq<WarningV>), ErrorV>(
            (markdown::markdown(p, d), markdown::warnings(p, d)),
        )
    } else {
        let f = markdown::front_matter(p, markdown::fresh(), d);
        blocks_from(
            tools,
            t,
            d.blocks,
            0,
            (f.out, markdown::reported(p, f)),
            opts,
            limits,
            body,
        )
    }
}

/// What rendering a document through templates may give: everything but what the
/// templates write is fixed.
pub open spec fn may_template<X: Extractor>(
    tools: X,
    t: TemplatesV,
    d: DocumentV,
    opts: RenderOptions,
    limits: Limits,
    x: ExtrasV,
    r: Result<(Seq<char>, Seq<WarningV>), ErrorV>,
) -> bool {
    let max = limits.max_output_bytes as nat;
    exists|body: Result<(Seq<char>, Seq<WarningV>), ErrorV>| #[trigger]
        templated_body(tools, t, d, opts, limits, body) && (match body {
            Err(e) => r == Err::<(Seq<char>, Seq<WarningV>), ErrorV>(e),
            Ok(b) => if !t.has_document {
                r == Ok::<(Seq<char>, Seq<WarningV>), ErrorV>(
                    (spec_truncate_at_line(b.0, max), b.1 + truncation_warnings(b.0, max)),
                )
            } else {
                exists|wrote: WrittenV| #[trigger]
                    tools.may_write(t.env, "__document"@, document_context(d, b.0, x), wrote) && r
                        == written_document(wrote, b.1, max)
            },
        })
}

/// The longest row.
pub open spec fn longest(rows: Seq<Seq<Seq<char>>>) -> nat
    decreases rows.len(),
{
    if rows.len() == 0 {
        0
    } else {
        let n = longest(rows.drop_last());
        if rows.last().len() > n {
            rows.last().len()
        } else {
            n
        }
    }
}

pub open spec fn table_width(header: Option<Seq<Seq<char>>>, rows: Seq<Seq<Seq<char>>>) -> nat {
    let n = longest(rows);
    match header {
        Some(h) => if h.len() > n {
            h.len()
        } else {
            n
        },
        None => n,
    }
}

/// A row of exactly `width` escaped cells.
pub open spec fn fitted(cells: Seq<Seq<char>>, width: nat) -> Seq<Seq<char>> {
    Seq::new(
        width,
        |i: int|
            if i < cells.len() {
                markdown::escape_cell_text(cells[i])
            } else {
                seq![]
            },
    )
}

pub open spec fn row_line(cells: Seq<Seq<char>>) -> Seq<char> {
    "| "@ + chars::join(cells, " | "@) + " |\n"@
}

pub open spec fn row_lines(rows: Seq<Seq<Seq<char>>>, width: nat) -> Seq<char>
    decreases rows.len(),
{
    if rows.len() == 0 {
        seq![]
    } else {
        row_lines(rows.drop_last(), width) + row_line(fitted(rows.last(), width))
    }
}

/// A pipe table.
pub open spec fn pipe_table(header: Option<Seq<Seq<char>>>, rows: Seq<Seq<Seq<char>>>) -> Seq<char> {
    let width = table_width(header, rows);
    if width == 0 {
        seq![]
    } else {
        row_line(
            fitted(
                match header {
                    Some(h) => h,
                    None => seq![],
                },
                width,
            ),
        ) + row_line(markdown::dashes(width)) + row_lines(rows, width)
    }
}

/// The strings of an array that holds nothing else.
pub open spec fn string_items(j: Option<JsonV>) -> Option<Seq<Seq<char>>> {
    match j {
        Some(JsonV::Array(a)) => if forall|i: int| 0 <= i < a.len() ==> #[trigger] a[i] is Str {
            Some(Seq::new(a.len(), |i: int| a[i]->Str_0))
        } else {
            None
        },
        _ => None,
    }
}

/// The rows of an array of arrays of strings.
pub open spec fn string_grid(j: Option<JsonV>) -> Seq<Seq<Seq<char>>> {
    match j {
        Some(JsonV::Array(a)) => if forall|i: int|
            0 <= i < a.len() ==> string_items(Some(#[trigger] a[i])) is Some {
            Seq::new(a.len(), |i: int| string_items(Some(a[i]))->0)
        } else {
            seq![]
        },
        _ => seq![],
    }
}

/// A table that a template hands over as `header` and `rows`.
pub open spec fn spec_table_text(j: JsonV) -> Seq<char> {
    pipe_table(string_items(j.get("header"@)), string_grid(j.get("rows"@)))
}

proof fn lemma_fitting(s: Seq<char>, max: nat)
    ensures
        0 <= fitting(s, max) <= s.len(),
        chars::byte_len(s.take(fitting(s, max))) <= max,
        fitting(s, max) < s.len() ==> chars::byte_len(s.take(fitting(s, max) + 1)) > max,
    decreases s.len(),
{
    if s.len() == 0 || chars::width(s[0]) > max {
        assert(s.take(0) =~= seq![]);
        if s.len() > 0 {
            assert(s.take(1).drop_last() =~= seq![]);
        }
    } else {
        let t = s.skip(1);
        let m = (max - chars::width(s[0])) as nat;
        lemma_fitting(t, m);
        let n = fitting(t, m);
        let one = seq![s[0]];
        assert(one.drop_last() =~= seq![]);
        assert(chars::byte_len(one) == chars::byte_len(one.drop_last()) + chars::width(s[0]));
        assert(s.take(n + 1) =~= one + t.take(n));
        chars::lemma_byte_len_concat(one, t.take(n));
        if n < t.len() {
            assert(s.take(n + 2) =~= one + t.take(n + 1));
            chars::lemma_byte_len_concat(one, t.take(n + 1));
        }
    }
}

proof fn lemma_trim_end_shrinks(s: Seq<char>)
    ensures
        chars::byte_len(chars::trim_end(s)) <= chars::byte_len(s),
    decreases s.len(),
{
    if s.len() > 0 && chars::is_space(s.last()) {
        lemma_trim_end_shrinks(s.drop_last());
    }
}

/// What is cut to `max` bytes takes no more than that and its final newline.
pub proof fn truncated_text_fits(s: Seq<char>, max: nat)
    ensures
        chars::byte_len(spec_truncate_at_line(s, max)) <= max + 1,
{
    let kept = kept_text(s, max);
    let t = chars::trim_end(kept);
    if chars::byte_len(s) > max {
        lemma_fitting(s, max);
        let head = s.take(fitting(s, max));
        if let Some(i) = chars::rfind(head, "\n"@) {
            lemma_rfind_within(head, "\n"@, head.len() - "\n"@.len());
            assert(head =~= head.take(i) + head.skip(i));
            chars::lemma_byte_len_concat(head.take(i), head.skip(i));
        }
    }
    lemma_trim_end_shrinks(kept);
    reveal_strlit("\n");
    assert("\n"@ =~= seq!['\n']);
    chars::lemma_byte_len_concat(t, "\n"@);
    assert(seq!['\n'].drop_last() =~= seq![]);
    assert(chars::byte_len(seq!['\n']) == chars::byte_len(seq!['\n'].drop_last()) + 1);
}

proof fn lemma_rfind_within(s: Seq<char>, p: Seq<char>, i: int)
    ensures
        chars::rfind_from(s, p, i) matches Some(k) ==> 0 <= k <= s.len(),
    decreases i + 1,
{
    if i >= 0 && !chars::matches_at(s, p, i) {
        lemma_rfind_within(s, p, i - 1);
    }
}

/// The names of the blocks that can have a template.
#[must_use]
pub fn known_block_templates() -> (r: Vec<String>)
    ensures
        chars::texts(r@) == known(),
{
    let mut v: Vec<String> = Vec::new();
    v.push("heading".to_owned());
    v.push("paragraph".to_owned());
    v.push("list".to_owned());
    v.push("table".to_owned());
    v.push("code".to_owned());
    v.push("quote".to_owned());
    v.push("image".to_owned());
    v.push("rule".to_owned());
    v.push("embedded".to_owned());
    assert(chars::texts(v@) =~= known());
    v
}

fn holds(names: &Vec<String>, name: &str) -> (r: bool)
    ensures
        r == chars::texts(names@).contains(name@),
{
    let ghost v = chars::texts(names@);
    let mut i: usize = 0;
    while i < names.len()
        invariant
            i <= names@.len(),
            v == chars::texts(names@),
            forall|k: int| 0 <= k < i ==> #[trigger] v[k] != name@,
        decreases names@.len() - i,
    {
        assert(v[i as int] == names@[i as int]@);
        if text::eq(&names[i], name) {
            return true;
        }
        i += 1;
    }
    false
}

fn unknown_error(stage: &'static str, name: &str, names: &Vec<String>) -> (r: ConvertError)
    requires
        chars::texts(names@) == known(),
    ensures
        r@ == unknown_block(stage@, name@),
{
    let q = text::debug(name);
    let list = text::join(names, ", ");
    let a = text::cat3("unknown block template ", &q, " (known: ");
    let message = text::cat3(&a, &list, ")");
    ConvertError::Template { stage, message }
}

fn put(v: &mut Vec<(String, String)>, key: &str, value: &str)
    ensures
        ir::pairs_view(final(v)@) == chars::put(ir::pairs_view(old(v)@), key@, value@),
{
    let ghost s = ir::pairs_view(v@);
    let pair = (key.to_owned(), value.to_owned());
    let mut i: usize = 0;
    assert(s.skip(0) =~= s);
    assert(s.take(0) + chars::put(s.skip(0), key@, value@) =~= chars::put(s, key@, value@));
    while i < v.len()
        invariant
            i <= v@.len(),
            s == ir::pairs_view(v@),
            s == ir::pairs_view(old(v)@),
            pair.0@ == key@,
            pair.1@ == value@,
            chars::put(s, key@, value@) == s.take(i as int) + chars::put(
                s.skip(i as int),
                key@,
                value@,
            ),
        decreases v@.len() - i,
    {
        let ghost rest = s.skip(i as int);
        assert(rest[0] == (v@[i as int].0@, v@[i as int].1@));
        if text::before(key, &v[i].0) {
            v.insert(i, pair);
            assert(ir::pairs_view(v@) =~= s.take(i as int) + (seq![(key@, value@)] + rest));
            return ;
        }
        if text::eq(&v[i].0, key) {
            v.set(i, pair);
            assert(ir::pairs_view(v@) =~= s.take(i as int) + (seq![(key@, value@)] + rest.skip(1)));
            return ;
        }
        assert(rest.skip(1) =~= s.skip(i + 1));
        assert(s.take(i as int) + (seq![rest[0]] + chars::put(rest.skip(1), key@, value@))
            =~= s.take(i + 1) + chars::put(s.skip(i + 1), key@, value@));
        i += 1;
    }
    v.push(pair);
    assert(ir::pairs_view(v@) =~= s.take(i as int) + (seq![(key@, value@)] + s.skip(i as int)));
}

/// The pairs as a sorted map holds them.
fn sort_pairs(pairs: &Vec<(String, String)>) -> (r: Vec<(String, String)>)
    ensures
        ir::pairs_view(r@) == chars::sorted(ir::pairs_view(pairs@)),
{
    let ghost s = ir::pairs_view(pairs@);
    let mut out: Vec<(String, String)> = Vec::new();
    assert(ir::pairs_view(out@) =~= seq![]);
    let mut i: usize = 0;
    while i < pairs.len()
        invariant
            i <= pairs@.len(),
            s == ir::pairs_view(pairs@),
            ir::pairs_view(out@) == chars::sorted(s.take(i as int)),
        decreases pairs@.len() - i,
    {
        assert(s.take(i + 1).drop_last() =~= s.take(i as int));
        assert(s.take(i + 1).last() == s[i as int]);
        put(&mut out, &pairs[i].0, &pairs[i].1);
        i += 1;
    }
    assert(s.take(s.len() as int) =~= s);
    out
}

/// Whether every name is that of a block, before anything is compiled.
pub fn validate_block_names(blocks: &Vec<(String, String)>) -> (r: Result<(), ConvertError>)
    ensures
        r is Ok <==> forall|i: int|
            0 <= i < blocks@.len() ==> known().contains((#[trigger] blocks@[i]).0@),
        r matches Err(e) ==> first_unknown(chars::sorted(ir::pairs_view(blocks@))) matches Some(n)
            && e@ == unknown_block("validate"@, n),
{
    let known_names = known_block_templates();
    let sorted = sort_pairs(blocks);
    let ghost s = chars::sorted(ir::pairs_view(blocks@));
    proof {
        lemma_sorted_keys(ir::pairs_view(blocks@));
    }
    assert(s.skip(0) =~= s);
    let mut i: usize = 0;
    while i < sorted.len()
        invariant
            i <= sorted@.len(),
            s == ir::pairs_view(sorted@),
            s == chars::sorted(ir::pairs_view(blocks@)),
            forall|k: Seq<char>| #[trigger] has_key(s, k) <==> has_key(ir::pairs_view(blocks@), k),
            chars::texts(known_names@) == known(),
            forall|k: int| 0 <= k < i ==> known().contains((#[trigger] s[k]).0),
            first_unknown(s) == first_unknown(s.skip(i as int)),
        decreases sorted@.len() - i,
    {
        assert(s.skip(i as int)[0] == s[i as int]);
        assert(s.skip(i as int).skip(1) =~= s.skip(i + 1));
        if !holds(&known_names, &sorted[i].0) {
            assert(has_key(s, sorted@[i as int].0@)) by {
                assert(s[i as int].0 == sorted@[i as int].0@);
            }
            let ghost p = ir::pairs_view(blocks@);
            assert(has_key(p, sorted@[i as int].0@));
            let ghost k = choose|k: int|
                0 <= k < p.len() && (#[trigger] p[k]).0 == sorted@[i as int].0@;
            assert(blocks@[k].0@ == p[k].0);
            return Err(unknown_error("validate", &sorted[i].0, &known_names));
        }
        i += 1;
    }
    assert forall|k: int| 0 <= k < blocks@.len() implies known().contains(
        (#[trigger] blocks@[k]).0@,
    ) by {
        let p = ir::pairs_view(blocks@);
        assert(p[k].0 == blocks@[k].0@);
        assert(has_key(p, p[k].0));
        assert(has_key(s, p[k].0));
    }
    Ok(())
}

/// The first name that no block has.
pub open spec fn first_unknown(s: Seq<(Seq<char>, Seq<char>)>) -> Option<Seq<char>>
    decreases s.len(),
{
    if s.len() == 0 {
        None
    } else if !known().contains(s[0].0) {
        Some(s[0].0)
    } else {
        first_unknown(s.skip(1))
    }
}

pub open spec fn has_key<V>(s: Seq<(Seq<char>, V)>, key: Seq<char>) -> bool {
    exists|i: int| 0 <= i < s.len() && (#[trigger] s[i]).0 == key
}

proof fn lemma_put_keys<V>(s: Seq<(Seq<char>, V)>, key: Seq<char>, value: V)
    ensures
        forall|k: Seq<char>| #[trigger]
            has_key(chars::put(s, key, value), k) <==> (k == key || has_key(s, k)),
    decreases s.len(),
{
    let t = chars::put(s, key, value);
    if s.len() == 0 || chars::before(key, s[0].0) {
        assert(t =~= seq![(key, value)] + s);
        assert forall|k: Seq<char>| has_key(t, k) <==> (k == key || has_key(s, k)) by {
            if has_key(t, k) {
                let i = choose|i: int| 0 <= i < t.len() && (#[trigger] t[i]).0 == k;
                if i > 0 {
                    assert(s[i - 1].0 == k);
                }
            }
            if k == key {
                assert(t[0].0 == k);
            }
            if has_key(s, k) {
                let i = choose|i: int| 0 <= i < s.len() && (#[trigger] s[i]).0 == k;
                assert(t[i + 1].0 == k);
            }
        }
    } else if s[0].0 == key {
        assert forall|k: Seq<char>| has_key(t, k) <==> (k == key || has_key(s, k)) by {
            if has_key(t, k) {
                let i = choose|i: int| 0 <= i < t.len() && (#[trigger] t[i]).0 == k;
                assert(s[i].0 == k);
            }
            if k == key {
                assert(t[0].0 == k);
            }
            if has_key(s, k) {
                let i = choose|i: int| 0 <= i < s.len() && (#[trigger] s[i]).0 == k;
                assert(t[i].0 == k);
            }
        }
    } else {
        lemma_put_keys(s.skip(1), key, value);
        let u = chars::put(s.skip(1), key, value);
        assert forall|k: Seq<char>| has_key(t, k) <==> (k == key || has_key(s, k)) by {
            assert(has_key(u, k) <==> (k == key || has_key(s.skip(1), k)));
            if has_key(t, k) {
                let i = choose|i: int| 0 <= i < t.len() && (#[trigger] t[i]).0 == k;
                if i == 0 {
                    assert(s[0].0 == k);
                } else {
                    assert(u[i - 1].0 == k);
                    if k != key {
                        let j = choose|j: int|
                            0 <= j < s.skip(1).len() && (#[trigger] s.skip(1)[j]).0 == k;
                        assert(s[j + 1].0 == k);
                    }
                }
            }
            if k == key || has_key(s, k) {
                if has_key(s, k) {
                    let i = choose|i: int| 0 <= i < s.len() && (#[trigger] s[i]).0 == k;
                    if i == 0 {
                        assert(t[0].0 == k);
                    } else {
                        assert(s.skip(1)[i - 1].0 == k);
                    }
                }
                if has_key(u, k) {
                    let j = choose|j: int| 0 <= j < u.len() && (#[trigger] u[j]).0 == k;
                    assert(t[j + 1].0 == k);
                }
            }
        }
    }
}

proof fn lemma_sorted_keys<V>(s: Seq<(Seq<char>, V)>)
    ensures
        forall|k: Seq<char>| #[trigger] has_key(chars::sorted(s), k) <==> has_key(s, k),
    decreases s.len(),
{
    if s.len() > 0 {
        let t = s.drop_last();
        lemma_sorted_keys(t);
        lemma_put_keys(chars::sorted(t), s.last().0, s.last().1);
        assert forall|k: Seq<char>| #[trigger] has_key(chars::sorted(s), k) <==> has_key(s, k) by {
            assert(has_key(chars::sorted(s), k) <==> (k == s.last().0 || has_key(
                chars::sorted(t),
                k,
            )));
            if has_key(s, k) {
                let i = choose|i: int| 0 <= i < s.len() && (#[trigger] s[i]).0 == k;
                if i < t.len() {
                    assert(t[i].0 == k);
                }
            }
            if has_key(t, k) {
                let i = choose|i: int| 0 <= i < t.len() && (#[trigger] t[i]).0 == k;
                assert(s[i].0 == k);
            }
            if k == s.last().0 {
                assert(s[s.len() - 1].0 == k);
            }
        }
    }
}

fn name_of(b: &Block) -> (r: &'static str)
    ensures
        r@ == block_name(b@),
{
    match b {
        Block::Heading { .. } => "heading",
        Block::Paragraph(_) => "paragraph",
        Block::List { .. } => "list",
        Block::Table(_) => "table",
        Block::Code { .. } => "code",
        Block::Quote(_) => "quote",
        Block::Image(_) => "image",
        Block::Rule => "rule",
        Block::Raw { .. } => "raw",
        Block::RawHtml { .. } => "raw",
        Block::Embedded { .. } => "embedded",
    }
}

fn opt_value(o: &Option<String>) -> (r: Value)
    ensures
        json::json_of(r) == opt_str(chars::opt(*o)),
{
    match o {
        Some(s) => string_value(s.clone()),
        None => null_value(),
    }
}

fn push_member(m: &mut Vec<(String, Value)>, key: &str, v: Value)
    ensures
        json::value_pairs(final(m)@) == json::value_pairs(old(m)@).push((key@, json::json_of(v))),
{
    let ghost before = m@;
    let k = key.to_owned();
    m.push((k, v));
    assert(json::value_pairs(m@) =~= json::value_pairs(before).push((key@, json::json_of(v))));
}

fn strings_value(v: &Vec<String>) -> (r: Value)
    ensures
        json::json_of(r) == strings(chars::texts(v@)),
{
    let mut out: Vec<Value> = Vec::new();
    let mut i: usize = 0;
    while i < v.len()
        invariant
            i <= v@.len(),
            out@.len() == i,
            forall|k: int| 0 <= k < i ==> json::json_of(#[trigger] out@[k]) == JsonV::Str(v@[k]@),
        decreases v@.len() - i,
    {
        out.push(string_value(v[i].clone()));
        i += 1;
    }
    assert(json::values_of(out@) =~= Seq::new(
        chars::texts(v@).len(),
        |i: int| JsonV::Str(chars::texts(v@)[i]),
    ));
    array_of(out)
}

fn plain_cells(cells: &Vec<Inline>) -> (r: Vec<String>)
    ensures
        chars::texts(r@) == plain_row(ir::cells_view(cells@)),
{
    let mut out: Vec<String> = Vec::new();
    let mut i: usize = 0;
    while i < cells.len()
        invariant
            i <= cells@.len(),
            out@.len() == i,
            forall|k: int| 0 <= k < i ==> (#[trigger] out@[k])@ == ir::plain(cells@[k]@),
        decreases cells@.len() - i,
    {
        out.push(cells[i].to_plain());
        i += 1;
    }
    assert(chars::texts(out@) =~= plain_row(ir::cells_view(cells@)));
    out
}

pub open spec fn grid_texts(g: Seq<Vec<String>>) -> Seq<Seq<Seq<char>>> {
    Seq::new(g.len(), |i: int| chars::texts(g[i]@))
}

fn plain_grid(rows: &Vec<Vec<Inline>>) -> (r: Vec<Vec<String>>)
    ensures
        grid_texts(r@) == plain_rows(ir::rows_view(rows@)),
{
    let mut out: Vec<Vec<String>> = Vec::new();
    let mut i: usize = 0;
    while i < rows.len()
        invariant
            i <= rows@.len(),
            out@.len() == i,
            forall|k: int|
                0 <= k < i ==> chars::texts((#[trigger] out@[k])@) == plain_row(
                    ir::cells_view(rows@[k]@),
                ),
        decreases rows@.len() - i,
    {
        out.push(plain_cells(&rows[i]));
        i += 1;
    }
    assert(grid_texts(out@) =~= plain_rows(ir::rows_view(rows@)));
    out
}

fn grid_value(g: &Vec<Vec<String>>) -> (r: Value)
    ensures
        json::json_of(r) == string_rows(grid_texts(g@)),
{
    let mut out: Vec<Value> = Vec::new();
    let mut i: usize = 0;
    while i < g.len()
        invariant
            i <= g@.len(),
            out@.len() == i,
            forall|k: int|
                0 <= k < i ==> json::json_of(#[trigger] out@[k]) == strings(chars::texts(g@[k]@)),
        decreases g@.len() - i,
    {
        out.push(strings_value(&g[i]));
        i += 1;
    }
    assert(json::values_of(out@) =~= Seq::new(
        grid_texts(g@).len(),
        |i: int| strings(grid_texts(g@)[i]),
    ));
    array_of(out)
}

fn quote_texts(bs: &Vec<Block>) -> (r: Vec<String>)
    ensures
        chars::texts(r@) == paragraph_texts(ir::blocks_view(bs@)),
{
    let ghost v = ir::blocks_view(bs@);
    let mut out: Vec<String> = Vec::new();
    assert(chars::texts(out@) =~= seq![]);
    let mut i: usize = 0;
    while i < bs.len()
        invariant
            i <= bs@.len(),
            v == ir::blocks_view(bs@),
            chars::texts(out@) == paragraph_texts(v.take(i as int)),
        decreases bs@.len() - i,
    {
        assert(v.take(i + 1).drop_last() =~= v.take(i as int));
        assert(v.take(i + 1).last() == bs@[i as int]@);
        if let Block::Paragraph(t) = &bs[i] {
            let p = t.to_plain();
            proof {
                chars::lemma_texts_push(out@, p);
            }
            out.push(p);
        }
        i += 1;
    }
    assert(v.take(v.len() as int) =~= v);
    out
}

fn text_of_block(b: &Block) -> (r: String)
    ensures
        r@ == block_text(b@),
{
    match b {
        Block::Heading { text, .. } => text.to_plain(),
        Block::Paragraph(t) => t.to_plain(),
        Block::Code { text, .. } => text.clone(),
        Block::Quote(inner) => {
            let ts = quote_texts(inner);
            text::join(&ts, "\n\n")
        },
        Block::Raw { markdown } => markdown.clone(),
        Block::RawHtml { html } => html.clone(),
        Block::List { .. } => String::new(),
        Block::Table(_) => String::new(),
        Block::Image(_) => String::new(),
        Block::Rule => String::new(),
        Block::Embedded { .. } => String::new(),
    }
}

fn item_text(bs: &Vec<Block>) -> (r: String)
    ensures
        r@ == chars::join(block_texts(ir::blocks_view(bs@)), " "@),
{
    let ghost v = ir::blocks_view(bs@);
    let mut out: Vec<String> = Vec::new();
    let mut i: usize = 0;
    while i < bs.len()
        invariant
            i <= bs@.len(),
            v == ir::blocks_view(bs@),
            out@.len() == i,
            forall|k: int| 0 <= k < i ==> (#[trigger] out@[k])@ == block_text(v[k]),
        decreases bs@.len() - i,
    {
        assert(v[i as int] == bs@[i as int]@);
        out.push(text_of_block(&bs[i]));
        i += 1;
    }
    assert(chars::texts(out@) =~= block_texts(v));
    text::join(&out, " ")
}

fn items_value(items: &Vec<Vec<Block>>) -> (r: Value)
    ensures
        json::json_of(r) == JsonV::Array(item_values(ir::items_view(items@))),
{
    let ghost v = ir::items_view(items@);
    let mut out: Vec<Value> = Vec::new();
    let mut i: usize = 0;
    while i < items.len()
        invariant
            i <= items@.len(),
            v == ir::items_view(items@),
            out@.len() == i,
            forall|k: int| 0 <= k < i ==> json::json_of(#[trigger] out@[k]) == item_values(v)[k],
        decreases items@.len() - i,
    {
        assert(v[i as int] == ir::blocks_view(items@[i as int]@));
        out.push(string_value(item_text(&items[i])));
        i += 1;
    }
    assert(json::values_of(out@) =~= item_values(v));
    array_of(out)
}

fn header_json(h: &Option<Vec<Inline>>) -> (r: Value)
    ensures
        json::json_of(r) == header_value(
            match *h {
                Some(c) => Some(ir::cells_view(c@)),
                None => None,
            },
        ),
{
    match h {
        Some(cells) => {
            let p = plain_cells(cells);
            strings_value(&p)
        },
        None => null_value(),
    }
}

fn source_of(s: &ImageRef) -> (r: (&'static str, String))
    ensures
        r.0@ == source_parts(s@).0,
        r.1@ == source_parts(s@).1,
{
    match s {
        ImageRef::Url(u) => ("url", u.clone()),
        ImageRef::Resource(u) => ("resource", u.clone()),
        ImageRef::Embedded(n) => ("embedded", n.clone()),
        ImageRef::Absent => ("none", String::new()),
    }
}

/// What a template sees of a block.
pub fn block_value(b: &Block) -> (r: Value)
    ensures
        json::json_of(r) == spec_block_value(b@),
{
    let mut m: Vec<(String, Value)> = Vec::new();
    assert(json::value_pairs(m@) =~= seq![]);
    push_member(&mut m, "type", string_value(name_of(b).to_owned()));
    assert(json::value_pairs(m@) =~= seq![("type"@, JsonV::Str(block_name(b@)))]);
    match b {
        Block::Heading { level, text } => {
            push_member(&mut m, "level", number_value(*level as u64));
            push_member(&mut m, "text", string_value(text.to_plain()));
        },
        Block::Paragraph(t) => {
            push_member(&mut m, "text", string_value(t.to_plain()));
        },
        Block::List { ordered, items } => {
            push_member(&mut m, "ordered", bool_value(*ordered));
            push_member(&mut m, "items", items_value(items));
        },
        Block::Table(t) => {
            push_member(&mut m, "caption", opt_value(&t.caption));
            push_member(&mut m, "header", header_json(&t.header));
            let g = plain_grid(&t.rows);
            push_member(&mut m, "rows", grid_value(&g));
        },
        Block::Code { language, text } => {
            push_member(&mut m, "language", opt_value(language));
            push_member(&mut m, "text", string_value(text.clone()));
        },
        Block::Quote(inner) => {
            let ts = quote_texts(inner);
            push_member(&mut m, "text", string_value(text::join(&ts, "\n\n")));
        },
        Block::Image(img) => {
            push_member(&mut m, "alt", opt_value(&img.alt));
            push_member(&mut m, "caption", opt_value(&img.caption));
            let s = source_of(&img.source);
            push_member(&mut m, "source_kind", string_value(s.0.to_owned()));
            push_member(&mut m, "source", string_value(s.1));
        },
        Block::Rule => {},
        Block::Raw { markdown } => {
            push_member(&mut m, "text", string_value(markdown.clone()));
        },
        Block::RawHtml { html } => {
            push_member(&mut m, "text", string_value(html.clone()));
        },
        Block::Embedded { name, doc } => {
            push_member(&mut m, "name", string_value(name.clone()));
            push_member(&mut m, "title", opt_value(&doc.title));
        },
    }
    assert(json::value_pairs(m@) =~= seq![("type"@, JsonV::Str(block_name(b@)))] + block_members(
        b@,
    ));
    object_of(m)
}

fn blocks_value(bs: &Vec<Block>) -> (r: Value)
    ensures
        json::json_of(r) == JsonV::Array(block_values(ir::blocks_view(bs@))),
{
    let ghost v = ir::blocks_view(bs@);
    let mut out: Vec<Value> = Vec::new();
    let mut i: usize = 0;
    while i < bs.len()
        invariant
            i <= bs@.len(),
            v == ir::blocks_view(bs@),
            out@.len() == i,
            forall|k: int| 0 <= k < i ==> json::json_of(#[trigger] out@[k]) == spec_block_value(v[k]),
        decreases bs@.len() - i,
    {
        assert(v[i as int] == bs@[i as int]@);
        out.push(block_value(&bs[i]));
        i += 1;
    }
    assert(json::values_of(out@) =~= block_values(v));
    array_of(out)
}

fn warnings_value(ws: &Vec<Warning>) -> (r: Value)
    ensures
        json::json_of(r) == JsonV::Array(warning_values(error::warnings_view(ws@))),
{
    let ghost v = error::warnings_view(ws@);
    let mut out: Vec<Value> = Vec::new();
    let mut i: usize = 0;
    while i < ws.len()
        invariant
            i <= ws@.len(),
            v == error::warnings_view(ws@),
            out@.len() == i,
            forall|k: int| 0 <= k < i ==> json::json_of(#[trigger] out@[k]) == warning_value(v[k]),
        decreases ws@.len() - i,
    {
        assert(v[i as int] == ws@[i as int]@);
        let mut m: Vec<(String, Value)> = Vec::new();
        assert(json::value_pairs(m@) =~= seq![]);
        push_member(&mut m, "kind", string_value(ws[i].kind.as_str().to_owned()));
        push_member(&mut m, "message", string_value(ws[i].message.clone()));
        assert(json::value_pairs(m@) =~= seq![
            ("kind"@, JsonV::Str(v[i as int].kind.name())),
            ("message"@, JsonV::Str(v[i as int].message)),
        ]);
        out.push(object_of(m));
        i += 1;
    }
    assert(json::values_of(out@) =~= warning_values(v));
    array_of(out)
}

fn extra_value(pairs: &Vec<(String, String)>) -> (r: Value)
    ensures
        json::json_of(r) == object(extra_values(ir::pairs_view(pairs@))),
{
    let ghost v = ir::pairs_view(pairs@);
    let mut m: Vec<(String, Value)> = Vec::new();
    assert(json::value_pairs(m@) =~= extra_values(v).take(0));
    let mut i: usize = 0;
    while i < pairs.len()
        invariant
            i <= pairs@.len(),
            v == ir::pairs_view(pairs@),
            json::value_pairs(m@) == extra_values(v).take(i as int),
        decreases pairs@.len() - i,
    {
        push_member(&mut m, &pairs[i].0, string_value(pairs[i].1.clone()));
        assert(extra_values(v).take(i + 1) =~= extra_values(v).take(i as int).push(
            (v[i as int].0, JsonV::Str(v[i as int].1)),
        ));
        i += 1;
    }
    assert(extra_values(v).take(v.len() as int) =~= extra_values(v));
    object_of(m)
}

fn metadata_json(x: &ir::Metadata) -> (r: Value)
    ensures
        json::json_of(r) == metadata_value(x@),
{
    let mut m: Vec<(String, Value)> = Vec::new();
    assert(json::value_pairs(m@) =~= seq![]);
    push_member(&mut m, "author", opt_value(&x.author));
    push_member(&mut m, "created", opt_value(&x.created));
    push_member(&mut m, "modified", opt_value(&x.modified));
    push_member(&mut m, "language", opt_value(&x.language));
    push_member(&mut m, "extra", extra_value(&x.extra));
    assert(json::value_pairs(m@) =~= seq![
        ("author"@, opt_str(x@.author)),
        ("created"@, opt_str(x@.created)),
        ("modified"@, opt_str(x@.modified)),
        ("language"@, opt_str(x@.language)),
        ("extra"@, object(extra_values(x@.extra))),
    ]);
    object_of(m)
}

/// What a template sees of a document.
pub fn document_value(d: &Document) -> (r: Value)
    ensures
        json::json_of(r) == spec_document_value(d@),
{
    let mut m: Vec<(String, Value)> = Vec::new();
    assert(json::value_pairs(m@) =~= seq![]);
    push_member(&mut m, "title", opt_value(&d.title));
    push_member(&mut m, "metadata", metadata_json(&d.metadata));
    push_member(&mut m, "blocks", blocks_value(&d.blocks));
    push_member(&mut m, "warnings", warnings_value(&d.warnings));
    assert(json::value_pairs(m@) =~= seq![
        ("title"@, opt_str(d@.title)),
        ("metadata"@, metadata_value(d@.metadata)),
        ("blocks"@, JsonV::Array(block_values(d@.blocks))),
        ("warnings"@, JsonV::Array(warning_values(d@.warnings))),
    ]);
    object_of(m)
}

/// What a template sees of the document's source.
pub fn source_value(s: Option<&StreamInfo>) -> (r: Value)
    ensures
        json::json_of(r) == spec_source_value(
            match s {
                Some(i) => Some(i@),
                None => None,
            },
        ),
{
    let mut m: Vec<(String, Value)> = Vec::new();
    assert(json::value_pairs(m@) =~= seq![]);
    if let Some(i) = s {
        push_member(&mut m, "filename", opt_value(&i.filename));
        push_member(&mut m, "mimetype", opt_value(&i.mimetype));
        push_member(&mut m, "extension", opt_value(&i.extension));
        push_member(&mut m, "charset", opt_value(&i.charset));
        push_member(&mut m, "uri", opt_value(&i.url));
        assert(json::value_pairs(m@) =~= seq![
            ("filename"@, opt_str(i@.filename)),
            ("mimetype"@, opt_str(i@.mimetype)),
            ("extension"@, opt_str(i@.extension)),
            ("charset"@, opt_str(i@.charset)),
            ("uri"@, opt_str(i@.url)),
        ]);
    }
    object_of(m)
}

fn context_of_block(b: &Block) -> (r: Value)
    ensures
        json::json_of(r) == block_context(b@),
{
    let mut m: Vec<(String, Value)> = Vec::new();
    assert(json::value_pairs(m@) =~= seq![]);
    push_member(&mut m, "block", block_value(b));
    assert(json::value_pairs(m@) =~= seq![("block"@, spec_block_value(b@))]);
    object_of(m)
}

fn context_of_document(d: &Document, body: String, x: &RenderExtras<'_>) -> (r: Value)
    ensures
        json::json_of(r) == document_context(d@, body@, x@),
{
    let ghost b = body@;
    let now = match x.now {
        Some(n) => n.to_owned(),
        None => String::new(),
    };
    assert(now@ =~= or_empty(x@.now));
    let mut m: Vec<(String, Value)> = Vec::new();
    assert(json::value_pairs(m@) =~= seq![]);
    push_member(&mut m, "doc", document_value(d));
    push_member(&mut m, "body", string_value(body));
    push_member(&mut m, "source", source_value(x.source));
    push_member(&mut m, "now", string_value(now));
    assert(json::value_pairs(m@) =~= seq![
        ("doc"@, spec_document_value(d@)),
        ("body"@, JsonV::Str(b)),
        ("source"@, spec_source_value(x@.source)),
        ("now"@, JsonV::Str(or_empty(x@.now))),
    ]);
    object_of(m)
}

fn char_width(c: char) -> (r: usize)
    ensures
        r == chars::width(c),
{
    let n: u32 = c as u32;
    if n <= 0x7f {
        1
    } else if n <= 0x7ff {
        2
    } else if n <= 0xffff {
        3
    } else {
        4
    }
}

fn count_fitting(v: &Vec<char>, max: u64) -> (r: usize)
    ensures
        r == fitting(v@, max as nat),
        r <= v@.len(),
{
    let mut left: u64 = max;
    let mut i: usize = 0;
    assert(v@.skip(0) =~= v@);
    while i < v.len()
        invariant
            i <= v@.len(),
            fitting(v@, max as nat) == i + fitting(v@.skip(i as int), left as nat),
        decreases v@.len() - i,
    {
        assert(v@.skip(i as int).skip(1) =~= v@.skip(i + 1));
        let w: u64 = char_width(v[i]) as u64;
        if w > left {
            return i;
        }
        left -= w;
        i += 1;
    }
    i
}

/// Cuts a text to a size, at the end of a line where there is one.
pub fn truncate_at_line(s: &str, max: u64, warnings: &mut Vec<Warning>) -> (r: String)
    ensures
        r@ == spec_truncate_at_line(s@, max as nat),
        error::warnings_view(final(warnings)@) == error::warnings_view(old(warnings)@)
            + truncation_warnings(s@, max as nat),
{
    let ghost before = warnings@;
    if text::len(s) as u64 <= max {
        let mut t = text::trim_end(s);
        t.append("\n");
        assert(error::warnings_view(warnings@) =~= error::warnings_view(before) + seq![]);
        return t;
    }
    let v = text::to_chars(s);
    let n: usize = count_fitting(&v, max);
    let head = text::slice(&v, 0, n);
    assert(v@.subrange(0, n as int) =~= s@.take(n as int));
    let kept = match text::rfind(&head, "\n") {
        Some(i) => {
            let h = text::to_chars(&head);
            let k = text::slice(&h, 0, i);
            assert(h@.subrange(0, i as int) =~= head@.take(i as int));
            k
        },
        None => head,
    };
    let d = text::decimal(max);
    let m = text::cat3("templated output reached max_output_bytes (", &d, ")");
    let w = Warning::new(WarningKind::Truncated, m);
    warnings.push(w);
    assert(error::warnings_view(warnings@) =~= error::warnings_view(before) + seq![w@]);
    let mut t = text::trim_end(&kept);
    t.append("\n");
    t
}

/// What a block's template wrote, or why it failed.
pub fn finish_block(name: &str, wrote: Written) -> (r: Result<String, ConvertError>)
    ensures
        r matches Ok(s) ==> written_block(name@, wrote@) == Ok::<Seq<char>, ErrorV>(s@),
        r matches Err(e) ==> written_block(name@, wrote@) == Err::<Seq<char>, ErrorV>(e@),
{
    match wrote {
        Written::Text(s) => Ok(s),
        Written::Missing(m) => Err(ConvertError::Template { stage: "load block", message: m }),
        Written::Failed(m) => Err(
            ConvertError::Template { stage: "render block", message: text::cat3(name, ": ", &m) },
        ),
        Written::Panicked => Err(
            ConvertError::Template {
                stage: "render block",
                message: text::cat3(name, ": ", "the template panicked"),
            },
        ),
    }
}

/// What the document's template wrote, cut to size, or why it failed.
pub fn finish_document(wrote: Written, warnings: Vec<Warning>, max: u64) -> (r: Result<
    Rendered,
    ConvertError,
>)
    ensures
        rendered_view(r) == written_document(
            wrote@,
            error::warnings_view(warnings@),
            max as nat,
        ),
{
    let mut warnings = warnings;
    match wrote {
        Written::Text(s) => {
            let markdown = truncate_at_line(&s, max, &mut warnings);
            Ok(Rendered { markdown, warnings })
        },
        Written::Missing(m) => Err(ConvertError::Template { stage: "load document", message: m }),
        Written::Failed(m) => Err(ConvertError::Template { stage: "render document", message: m }),
        Written::Panicked => Err(
            ConvertError::Template {
                stage: "render document",
                message: "the template panicked".to_owned(),
            },
        ),
    }
}

/// What follows from parsing the document's template.
pub fn finish_document_parse(p: Parsed) -> (r: Result<(), ConvertError>)
    ensures
        match r {
            Ok(_) => parsed_document(p@) is Ok,
            Err(e) => parsed_document(p@) == Err::<(), ErrorV>(e@),
        },
{
    match p {
        Parsed::Sound => Ok(()),
        Parsed::Faulty(m) => Err(ConvertError::Template { stage: "parse document", message: m }),
        Parsed::Panicked => Err(
            ConvertError::Template {
                stage: "parse document",
                message: "the parser panicked".to_owned(),
            },
        ),
    }
}

/// What follows from parsing a block's template.
pub fn finish_block_parse(name: &str, p: Parsed) -> (r: Result<(), ConvertError>)
    ensures
        match r {
            Ok(_) => parsed_block(name@, p@) is Ok,
            Err(e) => parsed_block(name@, p@) == Err::<(), ErrorV>(e@),
        },
{
    let m = match p {
        Parsed::Sound => {
            return Ok(());
        },
        Parsed::Faulty(m) => m,
        Parsed::Panicked => "the parser panicked".to_owned(),
    };
    let message = text::cat3(name, ": ", &m);
    Err(ConvertError::Template { stage: "parse blocks", message })
}

impl Templates {
    /// Compiles templates, which the host parses; every fault is found here rather
    /// than later.
    pub fn compile<X: Extractor>(spec: &TemplateSpec, tools: &X) -> (r: Result<
        Self,
        ConvertError,
    >)
        ensures
            compiles(*tools, spec_view(*spec), compiled_view(r)),
    {
        let mut env = new_environment();
        let ghost empty = env;
        let ghost s = spec_view(*spec);
        let mut has_document = false;
        if let Some(d) = &spec.document {
            let p = tools.add_template(&mut env, "__document", d);
            assert(s.document == Some(d@));
            let ghost parsed = p@;
            if let Err(e) = finish_document_parse(p) {
                assert(tools.may_add(empty, "__document"@, s.document->0, env, parsed));
                assert(parsed_document(parsed) == Err::<(), ErrorV>(e@));
                assert(compiles_into(*tools, empty, s, Err::<TemplatesV, ErrorV>(e@)));
                return Err(e);
            }
            has_document = true;
        }
        let names = known_block_templates();
        let blocks = sort_pairs(&spec.blocks);
        let mut block_names: Vec<String> = Vec::new();
        assert(chars::texts(block_names@) =~= seq![]);
        let ghost start = TemplatesV {
            env,
            has_document,
            block_names: chars::texts(block_names@),
        };
        proof {
            assert(start.block_names == Seq::<Seq<char>>::empty());
            if has_document {
                let d = s.document->0;
                assert(tools.may_add(empty, "__document"@, d, env, ParsedV::Sound));
            } else {
                assert(s.document is None);
            }
        }
        let mut i: usize = 0;
        while i < blocks.len()
            invariant
                i <= blocks@.len(),
                s == spec_view(*spec),
                s.blocks == ir::pairs_view(blocks@),
                chars::texts(names@) == known(),
                template_list(empty) == Seq::<(Seq<char>, Seq<char>)>::empty(),
                forall|q: Result<TemplatesV, ErrorV>|
                    #![trigger compiles_into(*tools, empty, s, q)]
                    compile_from(*tools, s.blocks, 0, start, q) ==> compiles_into(
                        *tools,
                        empty,
                        s,
                        q,
                    ),
                forall|q: Result<TemplatesV, ErrorV>|
                    #![trigger compile_from(*tools, s.blocks, 0, start, q)]
                    compile_from(
                        *tools,
                        s.blocks,
                        i as int,
                        (TemplatesV {
                            env,
                            has_document,
                            block_names: chars::texts(block_names@),
                        }),
                        q,
                    ) ==> compile_from(*tools, s.blocks, 0, start, q),
            decreases blocks@.len() - i,
        {
            let ghost now = TemplatesV {
                env,
                has_document,
                block_names: chars::texts(block_names@),
            };
            assert(s.blocks[i as int] == (blocks@[i as int].0@, blocks@[i as int].1@));
            let name = &blocks[i].0;
            if !holds(&names, name) {
                let e = unknown_error("parse blocks", name, &names);
                let ghost q = Err::<TemplatesV, ErrorV>(e@);
                assert(compile_from(*tools, s.blocks, i as int, now, q));
                assert(compile_from(*tools, s.blocks, 0, start, q));
                assert(compiles_into(*tools, empty, s, q));
                return Err(e);
            }
            let p = tools.add_template(&mut env, name, &blocks[i].1);
            assert(tools.may_add(now.env, s.blocks[i as int].0, s.blocks[i as int].1, env, p@));
            let ghost parsed = p@;
            if let Err(e) = finish_block_parse(name, p) {
                let ghost q = Err::<TemplatesV, ErrorV>(e@);
                assert(compile_from(*tools, s.blocks, i as int, now, q));
                assert(compile_from(*tools, s.blocks, 0, start, q));
                assert(compiles_into(*tools, empty, s, q));
                return Err(e);
            }
            let n = name.clone();
            proof {
                chars::lemma_texts_push(block_names@, n);
            }
            block_names.push(n);
            proof {
                let next = with_block(now, env, n@);
                assert(next == TemplatesV {
                    env,
                    has_document,
                    block_names: chars::texts(block_names@),
                });
                assert forall|q: Result<TemplatesV, ErrorV>|
                    #![trigger compile_from(*tools, s.blocks, 0, start, q)]
                    compile_from(*tools, s.blocks, i + 1, next, q) implies compile_from(
                    *tools,
                    s.blocks,
                    0,
                    start,
                    q,
                ) by {
                    assert(parsed_block(s.blocks[i as int].0, parsed) is Ok);
                    assert(compile_from(*tools, s.blocks, i as int, now, q));
                }
            }
            i += 1;
        }
        let t = Templates { env, has_document, block_names };
        assert(compile_from(
            *tools,
            s.blocks,
            i as int,
            t@,
            Ok::<TemplatesV, ErrorV>(t@),
        ));
        assert(compile_from(*tools, s.blocks, 0, start, Ok::<TemplatesV, ErrorV>(t@)));
        assert(compiles_into(*tools, empty, s, Ok::<TemplatesV, ErrorV>(t@)));
        Ok(t)
    }

    /// Renders a document through the templates, which the host runs.
    pub fn render<X: Extractor>(
        &self,
        tools: &X,
        doc: &Document,
        opts: &RenderOptions,
        limits: &Limits,
        extras: RenderExtras<'_>,
    ) -> (r: Result<Rendered, ConvertError>)
        ensures
            may_template(*tools, self@, doc@, *opts, *limits, extras@, rendered_view(r)),
    {
        let o = self.body_only(opts);
        let made = if self.block_names.len() == 0 {
            Ok(render::render(doc, &o, limits))
        } else {
            let f = front_of(doc, &o, limits);
            self.render_blocks(tools, &doc.blocks, f, opts, limits)
        };
        assert(templated_body(*tools, self@, doc@, *opts, *limits, rendered_view(made)));
        let made = match made {
            Ok(b) => b,
            Err(e) => {
                return Err(e);
            },
        };
        let mut warnings = made.warnings;
        let body = made.markdown;
        if !self.has_document {
            let markdown = truncate_at_line(&body, limits.max_output_bytes, &mut warnings);
            return Ok(Rendered { markdown, warnings });
        }
        let ghost b = (body@, error::warnings_view(warnings@));
        let context = context_of_document(doc, body, &extras);
        let wrote = tools.write(&self.env, "__document", &context);
        assert(tools.may_write(
            self@.env,
            "__document"@,
            document_context(doc@, b.0, extras@),
            wrote@,
        ));
        finish_document(wrote, warnings, limits.max_output_bytes)
    }

    fn body_only(&self, opts: &RenderOptions) -> (r: RenderOptions)
        ensures
            r == body_options(self@, *opts),
    {
        let mut o = opts.clone();
        if self.has_document {
            o.front_matter = FrontMatter::Off;
        }
        o
    }

    fn piece_of<X: Extractor>(
        &self,
        tools: &X,
        b: &Block,
        opts: &RenderOptions,
        limits: &Limits,
    ) -> (r: Result<Rendered, ConvertError>)
        ensures
            exists|wrote: WrittenV| #[trigger]
                block_wrote(*tools, self@, b@, wrote) && rendered_view(r) == block_piece(
                    self@,
                    b@,
                    wrote,
                    *opts,
                    *limits,
                ),
    {
        let name = name_of(b);
        if !holds(&self.block_names, name) {
            assert(block_wrote(*tools, self@, b@, WrittenV::Panicked));
            return Ok(render_piece(b, opts, limits));
        }
        let context = context_of_block(b);
        let wrote = tools.write(&self.env, name, &context);
        assert(block_wrote(*tools, self@, b@, wrote@));
        match finish_block(name, wrote) {
            Ok(markdown) => {
                let x = Rendered { markdown, warnings: Vec::new() };
                assert(error::warnings_view(x.warnings@) =~= seq![]);
                Ok(x)
            },
            Err(e) => Err(e),
        }
    }

    /// Renders the blocks behind what is already written.
    fn render_blocks<X: Extractor>(
        &self,
        tools: &X,
        blocks: &Vec<Block>,
        front: Rendered,
        opts: &RenderOptions,
        limits: &Limits,
    ) -> (r: Result<Rendered, ConvertError>)
        ensures
            blocks_from(
                *tools,
                self@,
                ir::blocks_view(blocks@),
                0,
                (front.markdown@, error::warnings_view(front.warnings@)),
                *opts,
                *limits,
                rendered_view(r),
            ),
    {
        let ghost v = ir::blocks_view(blocks@);
        let ghost start = (front.markdown@, error::warnings_view(front.warnings@));
        let mut out = front.markdown;
        let mut warnings = front.warnings;
        let mut i: usize = 0;
        while i < blocks.len()
            invariant
                i <= blocks@.len(),
                v == ir::blocks_view(blocks@),
                start == (front.markdown@, error::warnings_view(front.warnings@)),
                forall|q: Result<(Seq<char>, Seq<WarningV>), ErrorV>| #[trigger]
                    blocks_from(
                        *tools,
                        self@,
                        v,
                        i as int,
                        (out@, error::warnings_view(warnings@)),
                        *opts,
                        *limits,
                        q,
                    ) ==> blocks_from(*tools, self@, v, 0, start, *opts, *limits, q),
            decreases blocks@.len() - i,
        {
            assert(v[i as int] == blocks@[i as int]@);
            let ghost before = (out@, error::warnings_view(warnings@));
            let got = self.piece_of(tools, &blocks[i], opts, limits);
            let ghost wrote = choose|wrote: WrittenV| #[trigger]
                block_wrote(*tools, self@, v[i as int], wrote) && rendered_view(got)
                    == block_piece(self@, v[i as int], wrote, *opts, *limits);
            assert(block_wrote(*tools, self@, v[i as int], wrote));
            let p = match got {
                Ok(p) => p,
                Err(e) => {
                    assert(blocks_from(
                        *tools,
                        self@,
                        v,
                        i as int,
                        before,
                        *opts,
                        *limits,
                        rendered_view(Err(e)),
                    ));
                    return Err(e);
                },
            };
            let piece = text::trim(&p.markdown);
            error::append_warnings(&mut warnings, &p.warnings);
            if !text::is_empty(&piece) {
                text::push_str(&mut out, &piece);
                text::push_str(&mut out, "\n\n");
                if text::len(&out) as u64 > limits.max_output_bytes {
                    let r = Rendered { markdown: out, warnings };
                    assert(blocks_from(
                        *tools,
                        self@,
                        v,
                        i as int,
                        before,
                        *opts,
                        *limits,
                        rendered_view(Ok(r)),
                    ));
                    return Ok(r);
                }
            }
            assert forall|q: Result<(Seq<char>, Seq<WarningV>), ErrorV>| #[trigger]
                blocks_from(
                    *tools,
                    self@,
                    v,
                    i + 1,
                    (out@, error::warnings_view(warnings@)),
                    *opts,
                    *limits,
                    q,
                ) implies blocks_from(*tools, self@, v, 0, start, *opts, *limits, q) by {
                assert(blocks_from(*tools, self@, v, i as int, before, *opts, *limits, q));
            }
            i += 1;
        }
        let r = Rendered { markdown: out, warnings };
        assert(blocks_from(
            *tools,
            self@,
            v,
            i as int,
            (r.markdown@, error::warnings_view(r.warnings@)),
            *opts,
            *limits,
            rendered_view(Ok(r)),
        ));
        Ok(r)
    }
}

fn push_row(out: &mut String, cells: &Vec<String>, width: usize)
    ensures
        final(out)@ == old(out)@ + row_line(fitted(chars::texts(cells@), width as nat)),
{
    let ghost v = chars::texts(cells@);
    let mut row: Vec<String> = Vec::new();
    let mut i: usize = 0;
    while i < width
        invariant
            i <= width,
            v == chars::texts(cells@),
            chars::texts(row@) =~= fitted(v, width as nat).take(i as int),
        decreases width - i,
    {
        let c = if i < cells.len() {
            escape_cell_text(&cells[i])
        } else {
            String::new()
        };
        proof {
            chars::lemma_texts_push(row@, c);
        }
        row.push(c);
        i += 1;
    }
    assert(fitted(v, width as nat).take(width as int) =~= fitted(v, width as nat));
    let j = text::join(&row, " | ");
    let l = text::cat3("| ", &j, " |\n");
    text::push_str(out, &l);
}

fn push_dashes(out: &mut String, width: usize)
    ensures
        final(out)@ == old(out)@ + row_line(markdown::dashes(width as nat)),
{
    let mut row: Vec<String> = Vec::new();
    let mut i: usize = 0;
    while i < width
        invariant
            i <= width,
            chars::texts(row@) =~= markdown::dashes(width as nat).take(i as int),
        decreases width - i,
    {
        let c = "---".to_owned();
        proof {
            chars::lemma_texts_push(row@, c);
        }
        row.push(c);
        i += 1;
    }
    assert(markdown::dashes(width as nat).take(width as int) =~= markdown::dashes(width as nat));
    let j = text::join(&row, " | ");
    let l = text::cat3("| ", &j, " |\n");
    text::push_str(out, &l);
}

pub open spec fn opt_texts(h: Option<Vec<String>>) -> Option<Seq<Seq<char>>> {
    match h {
        Some(v) => Some(chars::texts(v@)),
        None => None,
    }
}

fn pipe_table_of(header: Option<Vec<String>>, rows: &Vec<Vec<String>>) -> (r: String)
    ensures
        r@ == pipe_table(opt_texts(header), grid_texts(rows@)),
{
    let ghost v = grid_texts(rows@);
    let mut width: usize = 0;
    let mut i: usize = 0;
    while i < rows.len()
        invariant
            i <= rows@.len(),
            v == grid_texts(rows@),
            width == longest(v.take(i as int)),
        decreases rows@.len() - i,
    {
        assert(v.take(i + 1).drop_last() =~= v.take(i as int));
        assert(v.take(i + 1).last() == chars::texts(rows@[i as int]@));
        if rows[i].len() > width {
            width = rows[i].len();
        }
        i += 1;
    }
    assert(v.take(v.len() as int) =~= v);
    let head: Vec<String> = match header {
        Some(h) => {
            if h.len() > width {
                width = h.len();
            }
            h
        },
        None => {
            let h: Vec<String> = Vec::new();
            assert(chars::texts(h@) =~= seq![]);
            h
        },
    };
    if width == 0 {
        return String::new();
    }
    let mut out = String::new();
    push_row(&mut out, &head, width);
    push_dashes(&mut out, width);
    let ghost top = out@;
    assert(top =~= row_line(fitted(chars::texts(head@), width as nat)) + row_line(
        markdown::dashes(width as nat),
    ));
    assert(out@ =~= top + row_lines(v.take(0), width as nat));
    let mut k: usize = 0;
    while k < rows.len()
        invariant
            k <= rows@.len(),
            v == grid_texts(rows@),
            out@ == top + row_lines(v.take(k as int), width as nat),
        decreases rows@.len() - k,
    {
        assert(v.take(k + 1).drop_last() =~= v.take(k as int));
        assert(v.take(k + 1).last() == chars::texts(rows@[k as int]@));
        push_row(&mut out, &rows[k], width);
        assert(out@ =~= top + row_lines(v.take(k + 1), width as nat));
        k += 1;
    }
    assert(v.take(v.len() as int) =~= v);
    out
}

fn items_of(j: Option<&Json>) -> (r: Option<Vec<String>>)
    ensures
        opt_texts(r) == string_items(json::opt_view(j)),
{
    match j {
        Some(Json::Array(a)) => {
            let ghost v = json::jsons_view(a@);
            let mut out: Vec<String> = Vec::new();
            let mut i: usize = 0;
            while i < a.len()
                invariant
                    i <= a@.len(),
                    v == json::jsons_view(a@),
                    json::opt_view(j) == Some(JsonV::Array(v)),
                    out@.len() == i,
                    forall|k: int|
                        0 <= k < i ==> #[trigger] v[k] is Str && v[k]->Str_0 == out@[k]@,
                decreases a@.len() - i,
            {
                assert(v[i as int] == json::json_view(a@[i as int]));
                match &a[i] {
                    Json::Str(s) => {
                        out.push(s.clone());
                    },
                    _ => {
                        assert(!(v[i as int] is Str));
                        return None;
                    },
                }
                i += 1;
            }
            assert(chars::texts(out@) =~= Seq::new(v.len(), |i: int| v[i]->Str_0));
            Some(out)
        },
        _ => None,
    }
}

fn grid_of(j: Option<&Json>) -> (r: Vec<Vec<String>>)
    ensures
        grid_texts(r@) == string_grid(json::opt_view(j)),
{
    let mut out: Vec<Vec<String>> = Vec::new();
    assert(grid_texts(out@) =~= seq![]);
    if let Some(Json::Array(a)) = j {
        let ghost v = json::jsons_view(a@);
        let mut i: usize = 0;
        while i < a.len()
            invariant
                i <= a@.len(),
                v == json::jsons_view(a@),
                json::opt_view(j) == Some(JsonV::Array(v)),
                out@.len() == i,
                forall|k: int|
                    0 <= k < i ==> string_items(Some(#[trigger] v[k])) == Some(
                        chars::texts(out@[k]@),
                    ),
            decreases a@.len() - i,
        {
            assert(v[i as int] == json::json_view(a@[i as int]));
            match items_of(Some(&a[i])) {
                Some(row) => {
                    out.push(row);
                },
                None => {
                    assert(string_items(Some(v[i as int])) is None);
                    let none: Vec<Vec<String>> = Vec::new();
                    assert(grid_texts(none@) =~= seq![]);
                    return none;
                },
            }
            i += 1;
        }
        assert(grid_texts(out@) =~= Seq::new(v.len(), |i: int| string_items(Some(v[i]))->0));
    }
    out
}

/// A table that a template hands over as `header` and `rows`.
pub fn table_text(v: &Value) -> (r: String)
    ensures
        r@ == spec_table_text(json::json_of(*v)),
{
    let j = to_json(v);
    let header = items_of(j.get("header"));
    let rows = grid_of(j.get("rows"));
    pipe_table_of(header, &rows)
}

/// A table as a pipe table, with its cells as plain text.
#[must_use]
pub fn gfm_table(t: &Table) -> (r: String)
    ensures
        r@ == pipe_table(plain_header(t@.header), plain_rows(t@.rows)),
{
    let header = match &t.header {
        Some(h) => Some(plain_cells(h)),
        None => None,
    };
    let rows = plain_grid(&t.rows);
    pipe_table_of(header, &rows)
}

/// The header's cells as plain text.
pub open spec fn plain_header(h: Option<Seq<Seq<SpanV>>>) -> Option<Seq<Seq<char>>> {
    match h {
        Some(cells) => Some(plain_row(cells)),
        None => None,
    }
}

/// Every cell of the row is text and nothing else.
pub open spec fn is_text_row(cells: Seq<Seq<SpanV>>) -> bool {
    forall|i: int| 0 <= i < cells.len() ==> (#[trigger] cells[i]).len() == 1 && cells[i][0] is Text
}

/// Every cell of the table is text and nothing else.
pub open spec fn is_text_table(t: TableV) -> bool {
    &&& t.header matches Some(h) ==> is_text_row(h)
    &&& forall|i: int| 0 <= i < t.rows.len() ==> is_text_row(#[trigger] t.rows[i])
}

proof fn lemma_text_row(cells: Seq<Seq<SpanV>>, width: nat)
    requires
        is_text_row(cells),
    ensures
        markdown::pad_cells(cells, width) == fitted(plain_row(cells), width),
{
    assert forall|i: int| 0 <= i < width implies #[trigger] markdown::pad_cells(cells, width)[i]
        == fitted(plain_row(cells), width)[i] by {
        if i < cells.len() {
            let c = cells[i];
            let t = c[0]->Text_0;
            reveal_with_fuel(ir::plain, 2);
            reveal_with_fuel(ir::plain_span, 2);
            reveal_with_fuel(markdown::inline_with, 2);
            reveal_with_fuel(markdown::span, 2);
            assert(c.drop_last() =~= seq![]);
            assert(c.last() == SpanV::Text(t));
            assert(ir::plain(c.drop_last()) =~= seq![]);
            assert(ir::plain(c) =~= t);
            assert(markdown::inline_with(c.drop_last(), true) =~= seq![]);
            assert(markdown::inline_cell(c) =~= markdown::escape_cell_text(t));
        }
    }
    assert(markdown::pad_cells(cells, width) =~= fitted(plain_row(cells), width));
}

proof fn lemma_line(p: Page, s: Sheet, cells: Seq<Seq<char>>)
    requires
        guarantees::one_line(markdown::pipe_row(cells)),
    ensures
        ({
            let r = markdown::line(p, s, markdown::pipe_row(cells));
            r.truncated || !s.truncated && r.out == s.out + row_line(cells)
        }),
{
    reveal_strlit("\n");
    reveal_strlit(" |");
    reveal_strlit(" |\n");
    assert(" |\n"@ =~= " |"@ + "\n"@);
    guarantees::lemma_one_line_taken(p, s, markdown::pipe_row(cells));
    assert(s.out + markdown::pipe_row(cells) + "\n"@ =~= s.out + row_line(cells));
}

proof fn lemma_widths(rows: Seq<Seq<Seq<SpanV>>>)
    ensures
        longest(plain_rows(rows)) == ir::widest(rows),
    decreases rows.len(),
{
    if rows.len() > 0 {
        lemma_widths(rows.drop_last());
        assert(plain_rows(rows).drop_last() =~= plain_rows(rows.drop_last()));
    }
}

proof fn lemma_text_rows(p: Page, s: Sheet, rows: Seq<Seq<Seq<SpanV>>>, width: nat)
    requires
        width > 0,
        forall|i: int| 0 <= i < rows.len() ==> is_text_row(#[trigger] rows[i]),
    ensures
        ({
            let r = markdown::pipe_rows(p, s, rows, width);
            r.truncated || !s.truncated && r.out == s.out + row_lines(plain_rows(rows), width)
        }),
    decreases rows.len(),
{
    if rows.len() == 0 {
        assert(s.out + seq![] =~= s.out);
    } else {
        let before = rows.drop_last();
        assert forall|i: int| 0 <= i < before.len() implies is_text_row(#[trigger] before[i]) by {
            assert(before[i] == rows[i]);
        }
        lemma_text_rows(p, s, before, width);
        assert(is_text_row(rows[rows.len() - 1]));
        lemma_text_row(rows.last(), width);
        let a = markdown::pipe_rows(p, s, before, width);
        let cells = markdown::pad_cells(rows.last(), width);
        guarantees::rows_have_the_tables_width(rows.last(), width);
        lemma_line(p, a, cells);
        assert(plain_rows(rows).drop_last() =~= plain_rows(before));
        assert(plain_rows(rows).last() == plain_row(rows.last()));
        assert(s.out + row_lines(plain_rows(before), width) + row_line(cells) =~= s.out + (
        row_lines(plain_rows(before), width) + row_line(cells)));
    }
}

/// A table of text that a template writes reads as the renderer writes it, where
/// there is room for it.
pub proof fn tables_read_alike(p: Page, s: Sheet, t: TableV)
    requires
        is_text_table(t),
        t.caption is None,
        t.rows.len() <= p.max_rows,
        p.opts.tables == TableStyle::Gfm,
    ensures
        ({
            let r = markdown::table(p, s, t);
            r.truncated || r.out == s.out + pipe_table(plain_header(t.header), plain_rows(t.rows))
        }),
{
    let w = t.width();
    lemma_widths(t.rows);
    assert(table_width(plain_header(t.header), plain_rows(t.rows)) == w);
    if w == 0 {
        assert(s.out + seq![] =~= s.out);
    } else {
        let head = match t.header {
            Some(h) => markdown::pad_cells(h, w),
            None => Seq::new(w, |i: int| Seq::<char>::empty()),
        };
        let shown = fitted(
            match plain_header(t.header) {
                Some(h) => h,
                None => seq![],
            },
            w,
        );
        match t.header {
            Some(h) => lemma_text_row(h, w),
            None => assert(head =~= shown),
        }
        let a = markdown::line(p, s, markdown::pipe_row(head));
        let b = markdown::line(p, a, markdown::pipe_row(markdown::dashes(w)));
        let cells = match t.header {
            Some(h) => h,
            None => seq![],
        };
        assert(head =~= markdown::pad_cells(cells, w));
        guarantees::rows_have_the_tables_width(cells, w);
        lemma_line(p, s, head);
        reveal_strlit("---");
        guarantees::lemma_pipe_row_one_line(markdown::dashes(w));
        lemma_line(p, a, markdown::dashes(w));
        lemma_text_rows(p, b, t.rows, w);
        let rest = row_lines(plain_rows(t.rows), w);
        assert(s.out + row_line(head) + row_line(markdown::dashes(w)) + rest =~= s.out + (row_line(
            head,
        ) + row_line(markdown::dashes(w)) + rest));
    }
}

/// Where the block templates compile, the host found every one of them sound, and
/// each belongs to a block.
pub proof fn compiled_templates_parse<X: Extractor>(
    tools: X,
    blocks: Seq<(Seq<char>, Seq<char>)>,
    i: int,
    t: TemplatesV,
    r: TemplatesV,
)
    requires
        0 <= i,
        compile_from(tools, blocks, i, t, Ok(r)),
    ensures
        forall|j: int|
            i <= j < blocks.len() ==> known().contains((#[trigger] blocks[j]).0) && found_sound(
                tools,
                blocks[j],
            ),
    decreases blocks.len() - i,
{
    if i < blocks.len() {
        let name = blocks[i].0;
        let (env, p) = choose|env: Environment<'static>, p: ParsedV| #[trigger]
            tools.may_add(t.env, name, blocks[i].1, env, p) && match parsed_block(name, p) {
                Err(e) => Ok::<TemplatesV, ErrorV>(r) == Err::<TemplatesV, ErrorV>(e),
                Ok(_) => compile_from(
                    tools,
                    blocks,
                    i + 1,
                    with_block(t, env, name),
                    Ok::<TemplatesV, ErrorV>(r),
                ),
            };
        assert(p == ParsedV::Sound);
        assert(found_sound(tools, blocks[i]));
        compiled_templates_parse(tools, blocks, i + 1, with_block(t, env, name), r);
    }
}

/// The host may find the template sound.
pub open spec fn found_sound<X: Extractor>(tools: X, b: (Seq<char>, Seq<char>)) -> bool {
    exists|before: Environment<'static>, after: Environment<'static>| #[trigger]
        tools.may_add(before, b.0, b.1, after, ParsedV::Sound)
}

/// Whatever the templates write, the output takes no more than the limit and its
/// final newline.
pub proof fn templated_output_is_bounded<X: Extractor>(
    tools: X,
    t: TemplatesV,
    d: DocumentV,
    opts: RenderOptions,
    limits: Limits,
    x: ExtrasV,
    r: Result<(Seq<char>, Seq<WarningV>), ErrorV>,
)
    requires
        may_template(tools, t, d, opts, limits, x, r),
    ensures
        r matches Ok(p) ==> chars::byte_len(p.0) <= limits.max_output_bytes + 1,
{
    let max = limits.max_output_bytes as nat;
    let body = choose|body: Result<(Seq<char>, Seq<WarningV>), ErrorV>| #[trigger]
        templated_body(tools, t, d, opts, limits, body) && (match body {
            Err(e) => r == Err::<(Seq<char>, Seq<WarningV>), ErrorV>(e),
            Ok(b) => if !t.has_document {
                r == Ok::<(Seq<char>, Seq<WarningV>), ErrorV>(
                    (spec_truncate_at_line(b.0, max), b.1 + truncation_warnings(b.0, max)),
                )
            } else {
                exists|wrote: WrittenV| #[trigger]
                    tools.may_write(t.env, "__document"@, document_context(d, b.0, x), wrote) && r
                        == written_document(wrote, b.1, max)
            },
        });
    if let Ok(b) = body {
        truncated_text_fits(b.0, max);
        if t.has_document {
            let wrote = choose|wrote: WrittenV| #[trigger]
                tools.may_write(t.env, "__document"@, document_context(d, b.0, x), wrote) && r
                    == written_document(wrote, b.1, max);
            if let WrittenV::Text(s) = wrote {
                truncated_text_fits(s, max);
            }
        }
    }
}

/// The host writes one thing for each template and context.
pub open spec fn writes_once<X: Extractor>(tools: X, env: Environment<'static>) -> bool {
    forall|name: Seq<char>, context: JsonV, a: WrittenV, b: WrittenV| #[trigger]
        tools.may_write(env, name, context, a) && #[trigger] tools.may_write(
            env,
            name,
            context,
            b,
        ) ==> a == b
}

proof fn lemma_blocks_once<X: Extractor>(
    tools: X,
    t: TemplatesV,
    bs: Seq<BlockV>,
    i: int,
    out: (Seq<char>, Seq<WarningV>),
    opts: RenderOptions,
    limits: Limits,
    a: Result<(Seq<char>, Seq<WarningV>), ErrorV>,
    b: Result<(Seq<char>, Seq<WarningV>), ErrorV>,
)
    requires
        writes_once(tools, t.env),
        blocks_from(tools, t, bs, i, out, opts, limits, a),
        blocks_from(tools, t, bs, i, out, opts, limits, b),
    ensures
        a == b,
    decreases bs.len() - i,
{
    if 0 <= i < bs.len() {
        let v = choose|wrote: WrittenV| #[trigger]
            block_wrote(tools, t, bs[i], wrote) && (match block_piece(
                t,
                bs[i],
                wrote,
                opts,
                limits,
            ) {
                Err(e) => a == Err::<(Seq<char>, Seq<WarningV>), ErrorV>(e),
                Ok(p) => {
                    let piece = chars::trim(p.0);
                    let next = out.0 + piece + "\n\n"@;
                    let ws = out.1 + p.1;
                    if piece.len() == 0 {
                        blocks_from(tools, t, bs, i + 1, (out.0, ws), opts, limits, a)
                    } else if chars::byte_len(next) > limits.max_output_bytes {
                        a == Ok::<(Seq<char>, Seq<WarningV>), ErrorV>((next, ws))
                    } else {
                        blocks_from(tools, t, bs, i + 1, (next, ws), opts, limits, a)
                    }
                },
            });
        let w = choose|wrote: WrittenV| #[trigger]
            block_wrote(tools, t, bs[i], wrote) && (match block_piece(
                t,
                bs[i],
                wrote,
                opts,
                limits,
            ) {
                Err(e) => b == Err::<(Seq<char>, Seq<WarningV>), ErrorV>(e),
                Ok(p) => {
                    let piece = chars::trim(p.0);
                    let next = out.0 + piece + "\n\n"@;
                    let ws = out.1 + p.1;
                    if piece.len() == 0 {
                        blocks_from(tools, t, bs, i + 1, (out.0, ws), opts, limits, b)
                    } else if chars::byte_len(next) > limits.max_output_bytes {
                        b == Ok::<(Seq<char>, Seq<WarningV>), ErrorV>((next, ws))
                    } else {
                        blocks_from(tools, t, bs, i + 1, (next, ws), opts, limits, b)
                    }
                },
            });
        let piece = block_piece(t, bs[i], v, opts, limits);
        assert(piece == block_piece(t, bs[i], w, opts, limits));
        if let Ok(p) = piece {
            let text = chars::trim(p.0);
            let next = out.0 + text + "\n\n"@;
            let ws = out.1 + p.1;
            if text.len() == 0 {
                lemma_blocks_once(tools, t, bs, i + 1, (out.0, ws), opts, limits, a, b);
            } else if chars::byte_len(next) <= limits.max_output_bytes {
                lemma_blocks_once(tools, t, bs, i + 1, (next, ws), opts, limits, a, b);
            }
        }
    }
}

/// Where the host writes one thing for each template and context, a document has
/// one rendering.
pub proof fn rendering_is_determined<X: Extractor>(
    tools: X,
    t: TemplatesV,
    d: DocumentV,
    opts: RenderOptions,
    limits: Limits,
    x: ExtrasV,
    a: Result<(Seq<char>, Seq<WarningV>), ErrorV>,
    b: Result<(Seq<char>, Seq<WarningV>), ErrorV>,
)
    requires
        writes_once(tools, t.env),
        may_template(tools, t, d, opts, limits, x, a),
        may_template(tools, t, d, opts, limits, x, b),
    ensures
        a == b,
{
    let max = limits.max_output_bytes as nat;
    let m = choose|body: Result<(Seq<char>, Seq<WarningV>), ErrorV>| #[trigger]
        templated_body(tools, t, d, opts, limits, body) && (match body {
            Err(e) => a == Err::<(Seq<char>, Seq<WarningV>), ErrorV>(e),
            Ok(q) => if !t.has_document {
                a == Ok::<(Seq<char>, Seq<WarningV>), ErrorV>(
                    (spec_truncate_at_line(q.0, max), q.1 + truncation_warnings(q.0, max)),
                )
            } else {
                exists|wrote: WrittenV| #[trigger]
                    tools.may_write(t.env, "__document"@, document_context(d, q.0, x), wrote) && a
                        == written_document(wrote, q.1, max)
            },
        });
    let n = choose|body: Result<(Seq<char>, Seq<WarningV>), ErrorV>| #[trigger]
        templated_body(tools, t, d, opts, limits, body) && (match body {
            Err(e) => b == Err::<(Seq<char>, Seq<WarningV>), ErrorV>(e),
            Ok(q) => if !t.has_document {
                b == Ok::<(Seq<char>, Seq<WarningV>), ErrorV>(
                    (spec_truncate_at_line(q.0, max), q.1 + truncation_warnings(q.0, max)),
                )
            } else {
                exists|wrote: WrittenV| #[trigger]
                    tools.may_write(t.env, "__document"@, document_context(d, q.0, x), wrote) && b
                        == written_document(wrote, q.1, max)
            },
        });
    if t.block_names.len() > 0 {
        let p = render::page(body_options(t, opts), limits);
        let f = markdown::front_matter(p, markdown::fresh(), d);
        lemma_blocks_once(
            tools,
            t,
            d.blocks,
            0,
            (f.out, markdown::reported(p, f)),
            opts,
            limits,
            m,
            n,
        );
    }
}

/// A cut of what a document template rendered is reported: without the
/// warning, nothing but white space at the end is missing.
pub proof fn template_cuts_are_reported(s: Seq<char>, warnings: Seq<WarningV>, max: nat)
    ensures
        written_document(WrittenV::Text(s), warnings, max) matches Ok(p) && (p.1.contains(cut_warning(max))
            || p == (chars::trim_end(s) + "\n"@, warnings)),
{
    if chars::byte_len(s) > max {
        let w = warnings + truncation_warnings(s, max);
        assert(w[warnings.len() as int] == cut_warning(max));
    } else {
        assert(warnings + truncation_warnings(s, max) =~= warnings);
    }
}

} // verus!

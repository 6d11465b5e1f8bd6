//! From the document model to Markdown.
//!
//! CommonMark plus GFM tables. Only the renderer writes Markdown syntax, so
//! escaping is its business alone: converters put text into `Span::Text` and
//! never think about whether it holds a pipe.

use vstd::prelude::*;
use crate::chars;
use crate::cx::Limits;
use crate::error;
use crate::error::{Warning, WarningKind};
use crate::guarantees;
use crate::ir;
use crate::ir::{Block, BlockV, Document, Image, ImageRef, Inline, Metadata, Span, Table};
use crate::markdown;
use crate::markdown::{Page, Sheet};
use crate::text;

verus! {

/// How tables are written.
#[derive(Debug, Clone, Copy, PartialEq, Eq, Default)]
pub enum TableStyle {
    /// GitHub-flavoured pipe tables.
    #[default]
    Gfm,
    /// An HTML `<table>`.
    Html,
    /// CSV inside a fenced block.
    Csv,
}

/// Front-matter dialect.
#[derive(Debug, Clone, Copy, PartialEq, Eq, Default)]
pub enum FrontMatter {
    #[default]
    Off,
    Yaml,
    Toml,
}

/// Rendering options.
#[derive(Debug, PartialEq, Eq)]
pub struct RenderOptions {
    pub front_matter: FrontMatter,
    pub tables: TableStyle,
    /// Added to every heading level.
    pub heading_offset: u8,
    /// Write `Block::RawHtml` as it is. When off, such blocks are dropped with
    /// a warning.
    pub preserve_unsupported_html: bool,
}

pub open spec fn default_options() -> RenderOptions {
    RenderOptions {
        front_matter: FrontMatter::Off,
        tables: TableStyle::Gfm,
        heading_offset: 0,
        preserve_unsupported_html: false,
    }
}

impl Default for RenderOptions {
    fn default() -> (r: Self)
        ensures
            r == default_options(),
    {
        RenderOptions {
            front_matter: FrontMatter::Off,
            tables: TableStyle::Gfm,
            heading_offset: 0,
            preserve_unsupported_html: false,
        }
    }
}

impl Clone for RenderOptions {
    fn clone(&self) -> (r: Self)
        ensures
            r == *self,
    {
        RenderOptions {
            front_matter: self.front_matter,
            tables: self.tables,
            heading_offset: self.heading_offset,
            preserve_unsupported_html: self.preserve_unsupported_html,
        }
    }
}

/// What rendering gives.
#[derive(Debug)]
pub struct Rendered {
    pub markdown: String,
    pub warnings: Vec<Warning>,
}

impl Default for Rendered {
    fn default() -> (r: Self)
        ensures
            r.markdown@ == Seq::<char>::empty(),
            r.warnings@ == Seq::<Warning>::empty(),
    {
        Rendered { markdown: String::new(), warnings: Vec::new() }
    }
}

impl Clone for Rendered {
    fn clone(&self) -> (r: Self)
        ensures
            r.markdown@ == self.markdown@,
            error::warnings_view(r.warnings@) == error::warnings_view(self.warnings@),
    {
        Rendered {
            markdown: self.markdown.clone(),
            warnings: error::clone_warnings(&self.warnings),
        }
    }
}

/// The page that the limits give.
pub open spec fn page(opts: RenderOptions, limits: Limits) -> Page {
    Page {
        opts,
        max: limits.max_output_bytes as nat,
        max_rows: limits.max_table_rows as nat,
        tight: true,
    }
}

/// Renders a document. The text ends with one line feed and stays within the cap
/// and that line feed; where nothing in the document is written as it is, no two
/// blank lines follow each other.
#[must_use]
pub fn render(doc: &Document, opts: &RenderOptions, limits: &Limits) -> (r: Rendered)
    ensures
        r.markdown@ == markdown::markdown(page(*opts, *limits), doc@),
        error::warnings_view(r.warnings@) == markdown::warnings(page(*opts, *limits), doc@),
        r.markdown@.len() > 0,
        r.markdown@.last() == '\n',
        r.markdown@.len() > 1 ==> r.markdown@[r.markdown@.len() - 2] != '\n',
        chars::byte_len(r.markdown@) <= limits.max_output_bytes + 1,
        !markdown::any_verbatim(doc@.blocks) ==> guarantees::no_triple(r.markdown@),
{
    proof {
        let p = page(*opts, *limits);
        guarantees::output_ends_with_one_newline(p, doc@);
        guarantees::output_is_bounded(p, doc@);
        if !markdown::any_verbatim(doc@.blocks) {
            guarantees::blank_lines_stay_single(p, doc@);
        }
    }
    let mut r = Renderer::start(
        opts,
        limits.max_output_bytes,
        limits.max_table_rows as u64,
        true,
    );
    r.front_matter(doc);
    r.blocks(&doc.blocks, 0);
    let x = r.finish();
    let mut markdown = text::trim_end(&x.markdown);
    markdown.append("\n");
    Rendered { markdown, warnings: x.warnings }
}

/// The front matter of a document.
pub(crate) fn front_of(doc: &Document, opts: &RenderOptions, limits: &Limits) -> (r: Rendered)
    ensures
        ({
            let p = page(*opts, *limits);
            let f = markdown::front_matter(p, markdown::fresh(), doc@);
            &&& r.markdown@ == f.out
            &&& error::warnings_view(r.warnings@) == markdown::reported(p, f)
        }),
{
    let mut r = Renderer::start(
        opts,
        limits.max_output_bytes,
        limits.max_table_rows as u64,
        true,
    );
    r.front_matter(doc);
    r.finish()
}

/// Renders one block on its own.
#[must_use]
pub fn render_block(block: &Block, opts: &RenderOptions, limits: &Limits) -> (r: String)
    ensures
        r@ == markdown::fragment(page(*opts, *limits), seq![block@]).out,
{
    render_piece(block, opts, limits).markdown
}

/// One block on its own, with the warnings for it.
pub(crate) fn render_piece(block: &Block, opts: &RenderOptions, limits: &Limits) -> (r: Rendered)
    ensures
        ({
            let p = page(*opts, *limits);
            let f = markdown::fragment(p, seq![block@]);
            &&& r.markdown@ == f.out
            &&& error::warnings_view(r.warnings@) == markdown::reported(p, f)
        }),
{
    let mut r = Renderer::start(
        opts,
        limits.max_output_bytes,
        limits.max_table_rows as u64,
        false,
    );
    let ghost p = r.page();
    proof {
        assert(seq![block@].drop_last() =~= Seq::empty());
        assert(markdown::blocks(p, markdown::fresh(), seq![block@].drop_last(), 0)
            == markdown::fresh());
    }
    if limits.max_output_bytes > 0 {
        r.block(block, 0);
    } else {
        r.truncated = true;
    }
    let x = r.finish();
    Rendered { markdown: text::trim(&x.markdown), warnings: x.warnings }
}

/// What stays of `s` behind `run` line feeds, where no third one may follow, and
/// how many line feeds end it.
fn tighten(run: u8, s: &str) -> (r: (String, u8))
    requires
        run <= 2,
    ensures
        r.0@ == markdown::tightened(run as nat, s@),
        r.1 == markdown::run_after(run as nat, s@),
{
    let v = text::to_chars(s);
    let mut out = String::new();
    let mut now: u8 = run;
    let mut i: usize = 0;
    while i < v.len()
        invariant
            i <= v@.len(),
            run <= 2,
            now <= 2,
            out@ == markdown::tightened(run as nat, v@.take(i as int)),
            now == markdown::run_after(run as nat, v@.take(i as int)),
        decreases v@.len() - i,
    {
        let c: char = v[i];
        proof {
            assert(v@.take(i + 1).drop_last() =~= v@.take(i as int));
            assert(v@.take(i + 1).last() == c);
        }
        if c == '\n' {
            if now < 2 {
                out.push(c);
                now += 1;
            }
        } else {
            out.push(c);
            now = 0;
        }
        i += 1;
    }
    assert(v@.take(v@.len() as int) =~= v@);
    (out, now)
}

/// Counting on behind a text is counting its end.
pub(crate) proof fn lemma_tail_after(out: Seq<char>, t: Seq<char>)
    ensures
        markdown::tail(out) <= 2,
        markdown::tail(out + t) == markdown::run_after(markdown::tail(out), t),
    decreases t.len(),
{
    if t.len() == 0 {
        assert(out + t =~= out);
    } else {
        lemma_tail_after(out, t.drop_last());
        assert((out + t).drop_last() =~= out + t.drop_last());
    }
}

/// What is left out is not counted.
pub(crate) proof fn lemma_tail_tightened(out: Seq<char>, t: Seq<char>)
    ensures
        markdown::tail(out + markdown::tightened(markdown::tail(out), t)) == markdown::run_after(
            markdown::tail(out),
            t,
        ),
        chars::byte_len(markdown::tightened(markdown::tail(out), t)) <= chars::byte_len(t),
    decreases t.len(),
{
    let run = markdown::tail(out);
    if t.len() == 0 {
        assert(out + markdown::tightened(run, t) =~= out);
    } else {
        lemma_tail_tightened(out, t.drop_last());
        let k = markdown::tightened(run, t.drop_last());
        if !(t.last() == '\n' && markdown::run_after(run, t.drop_last()) >= 2) {
            assert((out + k.push(t.last())).drop_last() =~= out + k);
            assert(k.push(t.last()).drop_last() =~= k);
        }
    }
}

/// Blocks rendered on a sheet of their own.
fn render_fragment(blocks: &Vec<Block>, opts: &RenderOptions, max: u64, max_rows: u64) -> (r:
    Fragment)
    ensures
        r@ == markdown::fragment(
            Page { opts: *opts, max: max as nat, max_rows: max_rows as nat, tight: false },
            ir::blocks_view(blocks@),
        ),
    decreases blocks, 1int,
{
    let mut r = Renderer::start(opts, max, max_rows, false);
    r.blocks(blocks, 0);
    r.settle();
    Fragment {
        text: text::trim(&r.done),
        spent: r.spent,
        truncated: r.truncated,
        warnings: r.warnings,
    }
}

/// A fragment is rendered alike for every page.
proof fn lemma_fragment_loose(p: Page, bs: Seq<BlockV>)
    ensures
        markdown::fragment(p, bs) == markdown::fragment(markdown::loose(p), bs),
{
    assert(markdown::loose(markdown::loose(p)) == markdown::loose(p));
}

fn any_verbatim(blocks: &Vec<Block>) -> (r: bool)
    ensures
        r == markdown::any_verbatim(ir::blocks_view(blocks@)),
    decreases blocks, 1int,
{
    let ghost v = ir::blocks_view(blocks@);
    let mut found = false;
    let mut i: usize = 0;
    while i < blocks.len()
        invariant
            i <= blocks@.len(),
            v == ir::blocks_view(blocks@),
            found == markdown::any_verbatim(v.take(i as int)),
        decreases blocks@.len() - i,
    {
        proof {
            assert(v.take(i + 1).drop_last() =~= v.take(i as int));
            assert(v.take(i + 1).last() == blocks@[i as int]@);
        }
        if is_verbatim(&blocks[i]) {
            found = true;
        }
        i += 1;
    }
    assert(v.take(v.len() as int) =~= v);
    found
}

fn any_verbatim_item(items: &Vec<Vec<Block>>) -> (r: bool)
    ensures
        r == markdown::any_verbatim_item(ir::items_view(items@)),
    decreases items, 1int,
{
    let ghost v = ir::items_view(items@);
    let mut found = false;
    let mut i: usize = 0;
    while i < items.len()
        invariant
            i <= items@.len(),
            v == ir::items_view(items@),
            found == markdown::any_verbatim_item(v.take(i as int)),
        decreases items@.len() - i,
    {
        proof {
            assert(v.take(i + 1).drop_last() =~= v.take(i as int));
            assert(v.take(i + 1).last() == ir::blocks_view(items@[i as int]@));
        }
        if any_verbatim(&items[i]) {
            found = true;
        }
        i += 1;
    }
    assert(v.take(v.len() as int) =~= v);
    found
}

fn is_verbatim(b: &Block) -> (r: bool)
    ensures
        r == markdown::is_verbatim(b@),
    decreases b, 1int,
{
    match b {
        Block::Code { .. } => true,
        Block::Raw { .. } => true,
        Block::RawHtml { .. } => true,
        Block::List { items, .. } => any_verbatim_item(items),
        Block::Quote(inner) => any_verbatim(inner),
        Block::Embedded { doc, .. } => any_verbatim(&doc.blocks),
        _ => false,
    }
}

/// Blocks that were rendered on a sheet of their own.
struct Fragment {
    text: String,
    spent: u64,
    truncated: bool,
    warnings: Vec<Warning>,
}

impl View for Fragment {
    type V = Sheet;

    closed spec fn view(&self) -> Sheet {
        Sheet {
            out: self.text@,
            spent: self.spent as nat,
            truncated: self.truncated,
            warnings: error::warnings_view(self.warnings@),
        }
    }
}

struct Renderer<'a> {
    /// The blocks that are written.
    done: String,
    /// The block that is being written.
    out: String,
    /// How many line feeds end the text, counted up to two.
    tail: u8,
    /// The same for `done`.
    done_tail: u8,
    opts: &'a RenderOptions,
    max: u64,
    max_rows: u64,
    /// No more than two line feeds follow each other.
    tight: bool,
    /// The bytes that were written, with the line feeds that were left out.
    spent: u64,
    truncated: bool,
    warnings: Vec<Warning>,
}

impl<'a> Renderer<'a> {
    spec fn page(&self) -> Page {
        Page {
            opts: *self.opts,
            max: self.max as nat,
            max_rows: self.max_rows as nat,
            tight: self.tight,
        }
    }

    spec fn sheet(&self) -> Sheet {
        Sheet {
            out: self.done@ + self.out@,
            spent: self.spent as nat,
            truncated: self.truncated,
            warnings: error::warnings_view(self.warnings@),
        }
    }

    spec fn wf(&self) -> bool {
        &&& self.spent <= self.max
        &&& self.tail == markdown::tail(self.done@ + self.out@)
        &&& self.done_tail == markdown::tail(self.done@)
    }

    /// The text up to where the current block began.
    spec fn base(&self) -> Seq<char> {
        self.done@
    }

    fn start(opts: &'a RenderOptions, max: u64, max_rows: u64, tight: bool) -> (r: Self)
        ensures
            r.wf(),
            r.page() == (Page {
                opts: *opts,
                max: max as nat,
                max_rows: max_rows as nat,
                tight,
            }),
            r.sheet() == markdown::fresh(),
    {
        let r = Renderer {
            done: String::new(),
            out: String::new(),
            tail: 0,
            done_tail: 0,
            opts,
            max,
            max_rows,
            tight,
            spent: 0,
            truncated: false,
            warnings: Vec::new(),
        };
        assert(r.sheet() =~= markdown::fresh());
        r
    }

    /// What was written, with the warnings for it.
    fn finish(self) -> (r: Rendered)
        requires
            self.wf(),
        ensures
            r.markdown@ == self.sheet().out,
            error::warnings_view(r.warnings@) == markdown::reported(self.page(), self.sheet()),
    {
        let mut out = self.done;
        out.append(self.out.as_str());
        let mut warnings = self.warnings;
        if self.truncated {
            let ghost before = warnings@;
            let n = text::decimal(self.max);
            let m = text::cat3(
                "output reached max_output_bytes (",
                &n,
                ") and was cut at a block boundary",
            );
            let w = Warning::new(WarningKind::Truncated, m);
            warnings.push(w);
            assert(error::warnings_view(warnings@) =~= error::warnings_view(before).push(w@));
        }
        Rendered { markdown: out, warnings }
    }

    /// Takes what was written since the last call for good.
    fn settle(&mut self)
        requires
            old(self).wf(),
        ensures
            final(self).wf(),
            final(self).page() == old(self).page(),
            final(self).sheet() == old(self).sheet(),
            final(self).base() == old(self).sheet().out,
    {
        self.done.append(self.out.as_str());
        self.out = String::new();
        self.done_tail = self.tail;
        assert(self.done@ + self.out@ =~= self.done@);
    }

    /// Ends the current block: where it did not fit, it is taken back.
    fn close(&mut self)
        requires
            old(self).wf(),
        ensures
            final(self).wf(),
            final(self).page() == old(self).page(),
            final(self).sheet() == markdown::whole(
                (Sheet { out: old(self).base(), ..old(self).sheet() }),
                old(self).sheet(),
            ),
            final(self).base() == final(self).sheet().out,
    {
        if self.truncated {
            self.out = String::new();
            self.tail = self.done_tail;
            assert(self.done@ + self.out@ =~= self.done@);
        } else {
            self.settle();
        }
    }

    fn full(&self) -> (r: bool)
        requires
            self.wf(),
        ensures
            r == markdown::full(self.page(), self.sheet()),
    {
        self.truncated || self.spent >= self.max
    }

    fn push(&mut self, s: &str)
        requires
            old(self).wf(),
        ensures
            final(self).wf(),
            final(self).page() == old(self).page(),
            final(self).base() == old(self).base(),
            final(self).sheet() == markdown::push(old(self).page(), old(self).sheet(), s@),
    {
        if self.truncated {
            return;
        }
        let n: u64 = text::len(s) as u64;
        if n > self.max - self.spent {
            self.truncated = true;
            return;
        }
        self.spent = self.spent + n;
        let ghost before = self.done@ + self.out@;
        proof {
            lemma_tail_after(before, s@);
            lemma_tail_tightened(before, s@);
        }
        let (kept, run) = tighten(self.tail, s);
        self.tail = run;
        if self.tight {
            self.out.append(kept.as_str());
            assert(self.done@ + self.out@ =~= before + kept@);
        } else {
            self.out.append(s);
            assert(self.done@ + self.out@ =~= before + s@);
        }
    }

    fn line(&mut self, s: &str)
        requires
            old(self).wf(),
        ensures
            final(self).wf(),
            final(self).page() == old(self).page(),
            final(self).base() == old(self).base(),
            final(self).sheet() == markdown::line(old(self).page(), old(self).sheet(), s@),
    {
        self.push(s);
        self.push("\n");
    }

    fn blank(&mut self)
        requires
            old(self).wf(),
        ensures
            final(self).wf(),
            final(self).page() == old(self).page(),
            final(self).base() == old(self).base(),
            final(self).sheet() == markdown::blank(old(self).page(), old(self).sheet()),
    {
        if self.tail < 2 && !(text::is_empty(&self.done) && text::is_empty(&self.out)) {
            self.push("\n");
        }
    }

    fn spaced_line(&mut self, s: &str)
        requires
            old(self).wf(),
        ensures
            final(self).wf(),
            final(self).page() == old(self).page(),
            final(self).sheet() == markdown::spaced_line(old(self).page(), old(self).sheet(), s@),
    {
        self.settle();
        self.blank();
        self.line(s);
        self.close();
        self.blank();
    }

    /// The same for text that is written as it is.
    fn verbatim_line(&mut self, s: &str)
        requires
            old(self).wf(),
        ensures
            final(self).wf(),
            final(self).page() == old(self).page(),
            final(self).sheet() == markdown::verbatim_line(old(self).page(), old(self).sheet(), s@),
    {
        self.settle();
        self.blank();
        let tight = self.loosen();
        self.line(s);
        self.tight = tight;
        self.close();
        self.blank();
    }

    /// Turns to a loose page, and says what the page was.
    fn loosen(&mut self) -> (r: bool)
        requires
            old(self).wf(),
        ensures
            final(self).wf(),
            final(self).page() == markdown::loose(old(self).page()),
            final(self).sheet() == old(self).sheet(),
            final(self).base() == old(self).base(),
            r == old(self).tight,
    {
        let tight = self.tight;
        self.tight = false;
        tight
    }

    /// Takes over what a fragment reported.
    fn join(&mut self, f: &Fragment)
        requires
            old(self).wf(),
        ensures
            final(self).wf(),
            final(self).page() == old(self).page(),
            final(self).base() == old(self).base(),
            final(self).sheet() == markdown::joined(old(self).sheet(), f@),
    {
        error::append_warnings(&mut self.warnings, &f.warnings);
        if f.truncated {
            self.truncated = true;
        }
    }

    fn warn(&mut self, w: Warning)
        requires
            old(self).wf(),
        ensures
            final(self).wf(),
            final(self).page() == old(self).page(),
            final(self).base() == old(self).base(),
            final(self).sheet() == (Sheet {
                warnings: old(self).sheet().warnings.push(w@),
                ..old(self).sheet()
            }),
    {
        let ghost before = self.warnings@;
        self.warnings.push(w);
        assert(error::warnings_view(self.warnings@) =~= error::warnings_view(before).push(w@));
    }

    fn front_matter(&mut self, doc: &Document)
        requires
            old(self).wf(),
        ensures
            final(self).wf(),
            final(self).page() == old(self).page(),
            final(self).sheet() == markdown::front_matter(
                old(self).page(),
                old(self).sheet(),
                doc@,
            ),
    {
        let pairs = front_pairs(&doc.title, &doc.metadata);
        match self.opts.front_matter {
            FrontMatter::Off => {},
            FrontMatter::Yaml => self.front_block(&pairs, "---", ": "),
            FrontMatter::Toml => self.front_block(&pairs, "+++", " = "),
        }
    }

    fn front_block(&mut self, pairs: &Vec<(String, String)>, fence: &str, sep: &str)
        requires
            old(self).wf(),
        ensures
            final(self).wf(),
            final(self).page() == old(self).page(),
            final(self).sheet() == markdown::front_block(
                old(self).page(),
                old(self).sheet(),
                ir::pairs_view(pairs@),
                fence@,
                sep@,
            ),
    {
        if pairs.len() == 0 {
            return;
        }
        let ghost v = ir::pairs_view(pairs@);
        self.settle();
        self.line(fence);
        let ghost s0 = self.sheet();
        let mut i: usize = 0;
        while i < pairs.len()
            invariant
                i <= pairs@.len(),
                v == ir::pairs_view(pairs@),
                self.wf(),
                self.page() == old(self).page(),
                self.base() == old(self).sheet().out,
                self.sheet() == markdown::pair_lines(
                    old(self).page(),
                    s0,
                    v.take(i as int),
                    sep@,
                ),
            decreases pairs@.len() - i,
        {
            let k = yaml_key(&pairs[i].0);
            let x = scalar(&pairs[i].1);
            let l = text::cat3(&k, sep, &x);
            self.line(&l);
            i += 1;
            assert(v.take(i as int).drop_last() =~= v.take(i - 1));
        }
        assert(v.take(v.len() as int) =~= v);
        self.line(fence);
        self.close();
        self.blank();
    }

    fn blocks(&mut self, blocks: &Vec<Block>, extra: u8)
        requires
            old(self).wf(),
        ensures
            final(self).wf(),
            final(self).page() == old(self).page(),
            final(self).sheet() == markdown::blocks(
                old(self).page(),
                old(self).sheet(),
                ir::blocks_view(blocks@),
                extra,
            ),
        decreases blocks, 0int,
    {
        let ghost v = ir::blocks_view(blocks@);
        let mut i: usize = 0;
        while i < blocks.len()
            invariant
                i <= blocks@.len(),
                v == ir::blocks_view(blocks@),
                self.wf(),
                self.page() == old(self).page(),
                self.sheet() == markdown::blocks(
                    old(self).page(),
                    old(self).sheet(),
                    v.take(i as int),
                    extra,
                ),
            decreases blocks@.len() - i,
        {
            proof {
                assert(v.take(i + 1).drop_last() =~= v.take(i as int));
                assert(v.take(i + 1).last() == blocks@[i as int]@);
            }
            if self.full() {
                self.truncated = true;
            } else {
                self.block(&blocks[i], extra);
            }
            i += 1;
        }
        assert(v.take(v.len() as int) =~= v);
    }

    #[verifier::rlimit(40)]
    #[verifier::spinoff_prover]
    fn block(&mut self, block: &Block, extra: u8)
        requires
            old(self).wf(),
        ensures
            final(self).wf(),
            final(self).page() == old(self).page(),
            final(self).sheet() == markdown::block(
                old(self).page(),
                old(self).sheet(),
                block@,
                extra,
            ),
        decreases block, 0int,
    {
        match block {
            Block::Heading { level, text } => {
                let n: u16 = *level as u16 + self.opts.heading_offset as u16 + extra as u16;
                let level: usize = if n < 1 {
                    1
                } else if n > 6 {
                    6
                } else {
                    n as usize
                };
                let marks = text::repeat("#", level);
                let body = inline(text);
                let l = text::cat3(&marks, " ", &body);
                self.spaced_line(&l);
            },
            Block::Paragraph(text) => {
                if !text.is_blank() {
                    let l = inline(text);
                    self.spaced_line(&l);
                }
            },
            Block::List { ordered, items } => {
                self.settle();
                self.blank();
                self.list(*ordered, items);
                self.close();
                self.blank();
            },
            Block::Table(t) => {
                self.settle();
                self.blank();
                self.table(t);
                self.close();
                self.blank();
            },
            Block::Code { language, text } => {
                self.settle();
                self.blank();
                self.code(language, text);
                self.close();
                self.blank();
            },
            Block::Quote(inner) => {
                self.settle();
                self.blank();
                let nested = render_fragment(inner, self.opts, self.max, self.max_rows);
                proof {
                    lemma_fragment_loose(self.page(), ir::blocks_view(inner@));
                }
                self.join(&nested);
                let ls = text::lines(&nested.text);
                self.quote_lines(&ls);
                self.close();
                self.blank();
            },
            Block::Image(img) => {
                let l = image(img);
                self.spaced_line(&l);
            },
            Block::Rule => self.spaced_line("---"),
            Block::Raw { markdown } => {
                let l = text::trim_end(markdown);
                self.verbatim_line(&l);
            },
            Block::RawHtml { html } => {
                if self.opts.preserve_unsupported_html {
                    let l = text::trim_end(html);
                    self.verbatim_line(&l);
                } else {
                    self.warn(
                        Warning::new(
                            WarningKind::Degraded,
                            "dropped an HTML fragment Markdown cannot express (preserve_unsupported_html is off)",
                        ),
                    );
                }
            },
            Block::Embedded { name, doc } => {
                let n: u16 = 2 + self.opts.heading_offset as u16;
                let level: usize = if n > 6 {
                    6
                } else {
                    n as usize
                };
                let marks = text::repeat("#", level);
                let title = escape_text(name);
                let l = text::cat3(&marks, " ", &title);
                self.spaced_line(&l);
                let deeper: u8 = extra.saturating_add(2);
                self.blocks(&doc.blocks, deeper);
                self.blank();
            },
        }
    }

    fn code(&mut self, language: &Option<String>, text: &str)
        requires
            old(self).wf(),
        ensures
            final(self).wf(),
            final(self).page() == old(self).page(),
            final(self).base() == old(self).base(),
            final(self).sheet() == markdown::code(
                markdown::loose(old(self).page()),
                old(self).sheet(),
                chars::opt(*language),
                text@,
            ),
    {
        let fence = fence_for(text);
        let open = match language {
            Some(l) => text::cat(&fence, l),
            None => text::cat(&fence, ""),
        };
        let tight = self.loosen();
        self.line(&open);
        let body = text::trim_end_char(text, '\n');
        self.line(&body);
        self.line(&fence);
        self.tight = tight;
    }

    fn quote_lines(&mut self, ls: &Vec<String>)
        requires
            old(self).wf(),
        ensures
            final(self).wf(),
            final(self).page() == old(self).page(),
            final(self).base() == old(self).base(),
            final(self).sheet() == markdown::quote_lines(
                old(self).page(),
                old(self).sheet(),
                chars::texts(ls@),
            ),
    {
        let ghost v = chars::texts(ls@);
        let mut i: usize = 0;
        while i < ls.len()
            invariant
                i <= ls@.len(),
                v == chars::texts(ls@),
                self.wf(),
                self.page() == old(self).page(),
                self.base() == old(self).base(),
                self.sheet() == markdown::quote_lines(
                    old(self).page(),
                    old(self).sheet(),
                    v.take(i as int),
                ),
            decreases ls@.len() - i,
        {
            assert(v.take(i + 1).drop_last() =~= v.take(i as int));
            if text::is_empty(&ls[i]) {
                self.line(">");
            } else {
                let l = text::cat("> ", &ls[i]);
                self.line(&l);
            }
            i += 1;
        }
        assert(v.take(v.len() as int) =~= v);
    }

    fn list(&mut self, ordered: bool, items: &Vec<Vec<Block>>)
        requires
            old(self).wf(),
        ensures
            final(self).wf(),
            final(self).page() == old(self).page(),
            final(self).base() == old(self).base(),
            final(self).sheet() == markdown::list(
                old(self).page(),
                old(self).sheet(),
                ordered,
                ir::items_view(items@),
            ),
        decreases items, 0int,
    {
        let ghost v = ir::items_view(items@);
        let mut i: usize = 0;
        while i < items.len()
            invariant
                i <= items@.len(),
                v == ir::items_view(items@),
                self.wf(),
                self.page() == old(self).page(),
                self.base() == old(self).base(),
                self.sheet() == markdown::list(
                    old(self).page(),
                    old(self).sheet(),
                    ordered,
                    v.take(i as int),
                ),
            decreases items@.len() - i,
        {
            proof {
                assert(v.take(i + 1).drop_last() =~= v.take(i as int));
                assert(v.take(i + 1).last() == ir::blocks_view(items@[i as int]@));
            }
            let marker = if ordered {
                let n = text::decimal(i as u64 + 1);
                text::cat(&n, ". ")
            } else {
                "- ".to_owned()
            };
            let body = render_fragment(&items[i], self.opts, self.max, self.max_rows);
            proof {
                lemma_fragment_loose(self.page(), v[i as int]);
            }
            self.join(&body);
            if any_verbatim(&items[i]) {
                let tight = self.loosen();
                self.item(&marker, &body.text);
                self.tight = tight;
            } else {
                self.item(&marker, &body.text);
            }
            i += 1;
        }
        assert(v.take(v.len() as int) =~= v);
    }

    fn item(&mut self, marker: &str, body: &str)
        requires
            old(self).wf(),
        ensures
            final(self).wf(),
            final(self).page() == old(self).page(),
            final(self).base() == old(self).base(),
            final(self).sheet() == markdown::item(
                old(self).page(),
                old(self).sheet(),
                marker@,
                body@,
            ),
    {
        let trimmed = text::trim_end(body);
        let ls = text::lines(&trimmed);
        let ghost v = chars::texts(ls@);
        if ls.len() == 0 {
            let l = text::trim_end(marker);
            self.line(&l);
            return;
        }
        let first = text::cat(marker, &ls[0]);
        assert(v[0] == ls@[0]@);
        self.line(&first);
        let pad = text::repeat(" ", text::len(marker));
        let ghost rest = v.skip(1);
        let ghost s0 = self.sheet();
        let mut i: usize = 1;
        assert(rest.take(0) =~= Seq::empty());
        while i < ls.len()
            invariant
                1 <= i <= ls@.len(),
                v == chars::texts(ls@),
                rest == v.skip(1),
                self.wf(),
                self.page() == old(self).page(),
                self.base() == old(self).base(),
                self.sheet() == markdown::hanging_lines(
                    old(self).page(),
                    s0,
                    rest.take(i - 1),
                    pad@,
                ),
            decreases ls@.len() - i,
        {
            assert(rest.take(i as int).drop_last() =~= rest.take(i - 1));
            assert(rest.take(i as int).last() == ls@[i as int]@);
            if text::is_empty(&ls[i]) {
                self.push("\n");
            } else {
                let l = text::cat(&pad, &ls[i]);
                self.line(&l);
            }
            i += 1;
        }
        assert(rest.take(rest.len() as int) =~= rest);
    }

    fn table(&mut self, t: &Table)
        requires
            old(self).wf(),
        ensures
            final(self).wf(),
            final(self).page() == old(self).page(),
            final(self).base() == old(self).base(),
            final(self).sheet() == markdown::table(old(self).page(), old(self).sheet(), t@),
    {
        if let Some(c) = &t.caption {
            if !text::is_blank(c) {
                let e = escape_text(c);
                let l = text::cat3("**", &e, "**");
                self.line(&l);
                self.blank();
            }
        }
        let width: usize = t.width();
        if width == 0 {
            return;
        }
        let cut: bool = t.rows.len() as u64 > self.max_rows;
        let count: usize = if cut {
            self.max_rows as usize
        } else {
            t.rows.len()
        };
        let ghost rows = t@.rows.take(count as int);
        assert(!cut ==> rows =~= t@.rows);
        match self.opts.tables {
            TableStyle::Gfm => self.gfm_table(t, width, count),
            TableStyle::Html => self.html_table(t, width, count),
            TableStyle::Csv => self.csv_table(t, width, count),
        }
        if cut {
            let a = text::decimal(self.max_rows);
            let b = text::decimal(t.rows.len() as u64);
            let mut m = text::cat3("table truncated to ", &a, " of ");
            m.append(b.as_str());
            m.append(" rows (max_table_rows)");
            self.warn(Warning::new(WarningKind::Truncated, m));
            self.blank();
            let c = text::decimal(t.rows.len() as u64 - self.max_rows);
            let note = text::cat3("_… ", &c, " further rows omitted_");
            self.line(&note);
        }
    }

    fn gfm_table(&mut self, t: &Table, width: usize, count: usize)
        requires
            old(self).wf(),
            width == t@.width(),
            count <= t.rows@.len(),
        ensures
            final(self).wf(),
            final(self).page() == old(self).page(),
            final(self).base() == old(self).base(),
            final(self).sheet() == markdown::gfm_table(
                old(self).page(),
                old(self).sheet(),
                t@,
                t@.rows.take(count as int),
            ),
    {
        let header: Vec<String> = match &t.header {
            Some(h) => pad_cells(h, width),
            None => {
                let e = pad_cells(&Vec::new(), width);
                assert(chars::texts(e@) =~= Seq::new(
                    width as nat,
                    |i: int| Seq::<char>::empty(),
                ));
                e
            },
        };
        let l = pipe_row(&header);
        self.line(&l);
        let d = dashes(width);
        let sep = pipe_row(&d);
        self.line(&sep);
        let ghost s0 = self.sheet();
        let ghost v = t@.rows;
        let mut i: usize = 0;
        while i < count
            invariant
                i <= count <= t.rows@.len(),
                v == t@.rows,
                self.wf(),
                self.page() == old(self).page(),
                self.base() == old(self).base(),
                self.sheet() == markdown::pipe_rows(
                    old(self).page(),
                    s0,
                    v.take(i as int),
                    width as nat,
                ),
            decreases count - i,
        {
            assert(v.take(i + 1).drop_last() =~= v.take(i as int));
            assert(v.take(i + 1).last() == ir::cells_view(t.rows@[i as int]@));
            let cells = pad_cells(&t.rows[i], width);
            let l = pipe_row(&cells);
            self.line(&l);
            i += 1;
        }
    }

    fn html_cells(&mut self, cells: &Vec<String>, open: &str, close: &str)
        requires
            old(self).wf(),
        ensures
            final(self).wf(),
            final(self).page() == old(self).page(),
            final(self).base() == old(self).base(),
            final(self).sheet() == markdown::html_cells(
                old(self).page(),
                old(self).sheet(),
                chars::texts(cells@),
                open@,
                close@,
            ),
    {
        let ghost v = chars::texts(cells@);
        let mut i: usize = 0;
        while i < cells.len()
            invariant
                i <= cells@.len(),
                v == chars::texts(cells@),
                self.wf(),
                self.page() == old(self).page(),
                self.base() == old(self).base(),
                self.sheet() == markdown::html_cells(
                    old(self).page(),
                    old(self).sheet(),
                    v.take(i as int),
                    open@,
                    close@,
                ),
            decreases cells@.len() - i,
        {
            assert(v.take(i + 1).drop_last() =~= v.take(i as int));
            let e = html_escape(&cells[i]);
            let l = text::cat3(open, &e, close);
            self.line(&l);
            i += 1;
        }
        assert(v.take(v.len() as int) =~= v);
    }

    fn html_table(&mut self, t: &Table, width: usize, count: usize)
        requires
            old(self).wf(),
            width == t@.width(),
            count <= t.rows@.len(),
        ensures
            final(self).wf(),
            final(self).page() == old(self).page(),
            final(self).base() == old(self).base(),
            final(self).sheet() == markdown::html_table(
                old(self).page(),
                old(self).sheet(),
                t@,
                t@.rows.take(count as int),
            ),
    {
        self.line("<table>");
        if let Some(h) = &t.header {
            self.line("<thead><tr>");
            let cells = pad_cells_raw(h, width);
            self.html_cells(&cells, "<th>", "</th>");
            self.line("</tr></thead>");
        }
        self.line("<tbody>");
        let ghost s0 = self.sheet();
        let ghost v = t@.rows;
        let mut i: usize = 0;
        while i < count
            invariant
                i <= count <= t.rows@.len(),
                v == t@.rows,
                self.wf(),
                self.page() == old(self).page(),
                self.base() == old(self).base(),
                self.sheet() == markdown::html_rows(
                    old(self).page(),
                    s0,
                    v.take(i as int),
                    width as nat,
                ),
            decreases count - i,
        {
            assert(v.take(i + 1).drop_last() =~= v.take(i as int));
            assert(v.take(i + 1).last() == ir::cells_view(t.rows@[i as int]@));
            self.line("<tr>");
            let cells = pad_cells_raw(&t.rows[i], width);
            self.html_cells(&cells, "<td>", "</td>");
            self.line("</tr>");
            i += 1;
        }
        self.line("</tbody>");
        self.line("</table>");
    }

    fn csv_table(&mut self, t: &Table, width: usize, count: usize)
        requires
            old(self).wf(),
            width == t@.width(),
            count <= t.rows@.len(),
        ensures
            final(self).wf(),
            final(self).page() == old(self).page(),
            final(self).base() == old(self).base(),
            final(self).sheet() == markdown::csv_table(
                old(self).page(),
                old(self).sheet(),
                t@,
                t@.rows.take(count as int),
            ),
    {
        self.line("```csv");
        if let Some(h) = &t.header {
            let cells = pad_cells_raw(h, width);
            let l = csv_row(&cells);
            self.line(&l);
        }
        let ghost s0 = self.sheet();
        let ghost v = t@.rows;
        let mut i: usize = 0;
        while i < count
            invariant
                i <= count <= t.rows@.len(),
                v == t@.rows,
                self.wf(),
                self.page() == old(self).page(),
                self.base() == old(self).base(),
                self.sheet() == markdown::csv_rows(
                    old(self).page(),
                    s0,
                    v.take(i as int),
                    width as nat,
                ),
            decreases count - i,
        {
            assert(v.take(i + 1).drop_last() =~= v.take(i as int));
            assert(v.take(i + 1).last() == ir::cells_view(t.rows@[i as int]@));
            let cells = pad_cells_raw(&t.rows[i], width);
            let l = csv_row(&cells);
            self.line(&l);
            i += 1;
        }
        self.line("```");
    }
}

fn push_pair(pairs: &mut Vec<(String, String)>, key: &str, value: &Option<String>)
    ensures
        ir::pairs_view(final(pairs)@) == ir::pairs_view(old(pairs)@) + markdown::opt_pair(
            key@,
            chars::opt(*value),
        ),
{
    let ghost before = pairs@;
    if let Some(v) = value {
        let pair = (key.to_owned(), v.clone());
        pairs.push(pair);
        assert(ir::pairs_view(pairs@) =~= ir::pairs_view(before) + seq![(pair.0@, pair.1@)]);
    } else {
        assert(ir::pairs_view(pairs@) =~= ir::pairs_view(before) + seq![]);
    }
}

/// The pairs that front matter lists.
fn front_pairs(title: &Option<String>, m: &Metadata) -> (r: Vec<(String, String)>)
    ensures
        ir::pairs_view(r@) == markdown::front_pairs(chars::opt(*title), m@),
{
    let mut pairs: Vec<(String, String)> = Vec::new();
    assert(ir::pairs_view(pairs@) =~= seq![]);
    push_pair(&mut pairs, "title", title);
    assert(seq![] + markdown::opt_pair("title"@, chars::opt(*title)) =~= markdown::opt_pair(
        "title"@,
        chars::opt(*title),
    ));
    push_pair(&mut pairs, "author", &m.author);
    push_pair(&mut pairs, "created", &m.created);
    push_pair(&mut pairs, "modified", &m.modified);
    push_pair(&mut pairs, "language", &m.language);
    let ghost head = ir::pairs_view(pairs@);
    let ghost extra = ir::pairs_view(m.extra@);
    let mut i: usize = 0;
    assert(head + extra.take(0) =~= head);
    while i < m.extra.len()
        invariant
            i <= m.extra@.len(),
            extra == ir::pairs_view(m.extra@),
            ir::pairs_view(pairs@) == head + extra.take(i as int),
        decreases m.extra@.len() - i,
    {
        let ghost before = pairs@;
        let pair = (m.extra[i].0.clone(), m.extra[i].1.clone());
        pairs.push(pair);
        i += 1;
        assert(ir::pairs_view(pairs@) =~= ir::pairs_view(before).push((pair.0@, pair.1@)));
        assert(head + extra.take(i as int) =~= (head + extra.take(i - 1)).push(extra[i - 1]));
    }
    assert(extra.take(extra.len() as int) =~= extra);
    pairs
}

fn pad_cells(cells: &Vec<Inline>, width: usize) -> (r: Vec<String>)
    ensures
        chars::texts(r@) == markdown::pad_cells(ir::cells_view(cells@), width as nat),
{
    let mut out: Vec<String> = Vec::new();
    let mut i: usize = 0;
    while i < width
        invariant
            i <= width,
            out@.len() == i,
            forall|k: int|
                0 <= k < i ==> (#[trigger] out@[k])@ == markdown::pad_cells(
                    ir::cells_view(cells@),
                    width as nat,
                )[k],
        decreases width - i,
    {
        let c = if i < cells.len() {
            inline_cell(&cells[i])
        } else {
            String::new()
        };
        out.push(c);
        i += 1;
    }
    assert(chars::texts(out@) =~= markdown::pad_cells(ir::cells_view(cells@), width as nat));
    out
}

fn pad_cells_raw(cells: &Vec<Inline>, width: usize) -> (r: Vec<String>)
    ensures
        chars::texts(r@) == markdown::pad_cells_raw(ir::cells_view(cells@), width as nat),
{
    let mut out: Vec<String> = Vec::new();
    let mut i: usize = 0;
    while i < width
        invariant
            i <= width,
            out@.len() == i,
            forall|k: int|
                0 <= k < i ==> (#[trigger] out@[k])@ == markdown::pad_cells_raw(
                    ir::cells_view(cells@),
                    width as nat,
                )[k],
        decreases width - i,
    {
        let c = if i < cells.len() {
            cells[i].to_plain()
        } else {
            String::new()
        };
        out.push(c);
        i += 1;
    }
    assert(chars::texts(out@) =~= markdown::pad_cells_raw(ir::cells_view(cells@), width as nat));
    out
}

fn dashes(width: usize) -> (r: Vec<String>)
    ensures
        chars::texts(r@) == markdown::dashes(width as nat),
{
    let mut out: Vec<String> = Vec::new();
    let mut i: usize = 0;
    while i < width
        invariant
            i <= width,
            out@.len() == i,
            forall|k: int| 0 <= k < i ==> (#[trigger] out@[k])@ == "---"@,
        decreases width - i,
    {
        out.push("---".to_owned());
        i += 1;
    }
    assert(chars::texts(out@) =~= markdown::dashes(width as nat));
    out
}

fn pipe_row(cells: &Vec<String>) -> (r: String)
    ensures
        r@ == markdown::pipe_row(chars::texts(cells@)),
{
    let j = text::join(cells, " | ");
    text::cat3("| ", &j, " |")
}

fn csv_row(cells: &Vec<String>) -> (r: String)
    ensures
        r@ == markdown::csv_row(chars::texts(cells@)),
{
    let mut out: Vec<String> = Vec::new();
    let ghost want = Seq::new(
        cells@.len(),
        |i: int| markdown::csv_cell(chars::texts(cells@)[i]),
    );
    let mut i: usize = 0;
    while i < cells.len()
        invariant
            i <= cells@.len(),
            out@.len() == i,
            forall|k: int| 0 <= k < i ==> (#[trigger] out@[k])@ == markdown::csv_cell(cells@[k]@),
        decreases cells@.len() - i,
    {
        let c = &cells[i];
        let e = if text::contains_char(c, ',') || text::contains_char(c, '"')
            || text::contains_char(c, '\n') {
            let q = text::replace(c, "\"", "\"\"");
            text::cat3("\"", &q, "\"")
        } else {
            c.clone()
        };
        out.push(e);
        i += 1;
    }
    assert(chars::texts(out@) =~= want);
    assert(want =~= Seq::new(
        chars::texts(cells@).len(),
        |i: int| markdown::csv_cell(chars::texts(cells@)[i]),
    ));
    text::join(&out, ",")
}

/// Inline content as Markdown.
#[must_use]
pub fn inline(i: &Inline) -> (r: String)
    ensures
        r@ == markdown::inline(i@),
{
    inline_with(i, false)
}

/// Inline content as Markdown, fit for a table cell.
#[must_use]
pub fn inline_cell(i: &Inline) -> (r: String)
    ensures
        r@ == markdown::inline_cell(i@),
{
    inline_with(i, true)
}

fn wrapped(marker: &str, s: &str) -> (r: String)
    ensures
        r@ == markdown::wrapped(marker@, s@),
{
    if text::is_blank(s) {
        String::new()
    } else {
        let t = text::trim(s);
        text::cat3(marker, &t, marker)
    }
}

fn inline_with(i: &Inline, cell: bool) -> (r: String)
    ensures
        r@ == markdown::inline_with(i@, cell),
    decreases i,
{
    let ghost v = i@;
    let mut out = String::new();
    let mut k: usize = 0;
    while k < i.0.len()
        invariant
            k <= i.0@.len(),
            v == i@,
            out@ == markdown::inline_with(v.take(k as int), cell),
        decreases i.0@.len() - k,
    {
        let piece: String = match &i.0[k] {
            Span::Text(t) => if cell {
                escape_cell_text(t)
            } else {
                escape_text(t)
            },
            Span::Emphasis(inner) => {
                let s = inline_with(inner, cell);
                wrapped("*", &s)
            },
            Span::Strong(inner) => {
                let s = inline_with(inner, cell);
                wrapped("**", &s)
            },
            Span::Code(t) => {
                let s = code_span(t);
                if cell {
                    in_cell(&s)
                } else {
                    s
                }
            },
            Span::Link { text, href } => {
                let label = inline_with(text, cell);
                let label = if text::is_blank(&label) {
                    escape_text(href)
                } else {
                    label
                };
                let url = escape_url(href);
                let target = text::cat3("](", &url, ")");
                if cell {
                    let t = in_cell(&target);
                    text::cat3("[", &label, &t)
                } else {
                    text::cat3("[", &label, &target)
                }
            },
            Span::LineBreak => if cell {
                "<br>".to_owned()
            } else {
                "  \n".to_owned()
            },
        };
        out.append(piece.as_str());
        k += 1;
        proof {
            assert(v.take(k as int).drop_last() =~= v.take(k - 1));
            assert(v.take(k as int).last() == ir::span_view(i.0@[k - 1]));
            assert(piece@ == markdown::span(ir::span_view(i.0@[k - 1]), cell));
        }
    }
    assert(v.take(v.len() as int) =~= v);
    out
}

/// Markdown that stands in a table cell.
fn in_cell(s: &str) -> (r: String)
    ensures
        r@ == markdown::in_cell(s@),
{
    let v = text::to_chars(s);
    let mut out = String::new();
    let mut armed = false;
    let mut i: usize = 0;
    while i < v.len()
        invariant
            i <= v@.len(),
            out@ == markdown::in_cell(v@.take(i as int)),
            armed == markdown::disarms(out@),
        decreases v@.len() - i,
    {
        let c: char = v[i];
        proof {
            assert(v@.take(i + 1).drop_last() =~= v@.take(i as int));
            assert(v@.take(i + 1).last() == c);
        }
        let ghost before = out@;
        proof {
            reveal_strlit("\\|");
            reveal_strlit("<br>");
        }
        if c == '|' && !armed {
            out.append("\\|");
            armed = false;
        } else if c == '\n' {
            out.append("<br>");
            armed = false;
        } else if c != '\r' {
            out.push(c);
            armed = c == '\\' && !armed;
            assert(out@.drop_last() =~= before);
        }
        i += 1;
    }
    assert(v@.take(v@.len() as int) =~= v@);
    out
}

fn code_span(t: &str) -> (r: String)
    ensures
        r@ == markdown::code_span(t@),
{
    let n: usize = longest_backtick_run(t);
    let v = text::to_chars(t);
    let mut ticks = text::repeat("`", n);
    ticks.append("`");
    if v.len() > 0 && (v[0] == '`' || v[v.len() - 1] == '`') {
        let mut r = text::cat3(&ticks, " ", t);
        r.append(" ");
        r.append(ticks.as_str());
        r
    } else {
        text::cat3(&ticks, t, &ticks)
    }
}

fn image(img: &Image) -> (r: String)
    ensures
        r@ == markdown::image(img@),
{
    let raw: String = match (&img.alt, &img.caption) {
        (Some(a), _) => a.clone(),
        (None, Some(c)) => c.clone(),
        (None, None) => "".to_owned(),
    };
    let alt = escape_text(&raw);
    match &img.source {
        ImageRef::Url(u) => captioned(img, &alt, u),
        ImageRef::Resource(u) => captioned(img, &alt, u),
        ImageRef::Embedded(name) => {
            let n = escape_text(name);
            text::cat3("*[image: ", &n, "]*")
        },
        ImageRef::Absent => text::cat3("*[image: ", &alt, "]*"),
    }
}

fn captioned(img: &Image, alt: &str, url: &str) -> (r: String)
    ensures
        r@ == markdown::captioned(
            img@,
            "!["@ + alt@ + "]("@ + markdown::escape_url(url@) + ")"@,
        ),
{
    let u = escape_url(url);
    let mut body = text::cat3("![", alt, "](");
    body.append(u.as_str());
    body.append(")");
    match (&img.caption, &img.alt) {
        (Some(c), Some(_)) => {
            let e = escape_text(c);
            body.append("\n\n*");
            body.append(e.as_str());
            body.append("*");
            body
        },
        _ => body,
    }
}

/// `char::is_alphanumeric`: the answer depends on the character alone; of
/// ASCII characters, letters and digits are the alphanumeric ones.
#[verifier::external_body]
fn is_alphanumeric(c: char) -> (r: bool)
    ensures
        r == markdown::alphanumeric(c),
        c as u32 <= 0x7f ==> r == chars::is_ascii_alnum(c),
{
    c.is_alphanumeric()
}

/// Text with everything escaped that Markdown would read as markup.
#[must_use]
pub fn escape_text(s: &str) -> (r: String)
    ensures
        r@ == markdown::escape_text(s@),
{
    escape_inner(s, " ")
}

/// The same for a table cell, where a line feed becomes `<br>`.
#[must_use]
pub fn escape_cell_text(s: &str) -> (r: String)
    ensures
        r@ == markdown::escape_cell_text(s@),
{
    escape_inner(s, "<br>")
}

fn escape_inner(s: &str, newline: &str) -> (r: String)
    ensures
        r@ == markdown::escape_to(s@, s@.len() as int, newline@),
{
    let v = text::to_chars(s);
    let mut out = String::new();
    let mut digits: bool = true;
    let mut i: usize = 0;
    while i < v.len()
        invariant
            i <= v@.len(),
            v@ == s@,
            digits == markdown::all_digits_before(v@, i as int),
            out@ == markdown::escape_to(v@, i as int, newline@),
        decreases v@.len() - i,
    {
        let c: char = v[i];
        let ghost before = out@;
        let escaped: bool = if c == '\\' || c == '`' || c == '*' || c == '[' || c == ']' || c == '<'
            || c == '>' || c == '|' {
            true
        } else if c == '_' {
            i == 0 || !is_alphanumeric(v[i - 1]) || i + 1 >= v.len() || !is_alphanumeric(v[i + 1])
        } else if c == '#' || c == '+' || c == '-' {
            i == 0
        } else if c == '.' {
            i > 0 && digits
        } else {
            false
        };
        assert(escaped == markdown::needs_escape(v@, i as int));
        if escaped {
            out.push('\\');
            out.push(c);
            assert(out@ =~= before + seq!['\\', c]);
        } else if c == '\r' {
            assert(out@ =~= before + seq![]);
        } else if c == '\n' {
            out.append(newline);
        } else {
            out.push(c);
            assert(out@ =~= before + seq![c]);
        }
        let d: bool = text::is_digit(c);
        proof {
            if digits && d {
                assert(markdown::all_digits_before(v@, i + 1));
            } else {
                if !d {
                    assert(!chars::is_digit(v@[i as int]));
                }
                assert(!markdown::all_digits_before(v@, i + 1));
            }
        }
        digits = digits && d;
        i += 1;
    }
    out
}

/// A cell that is already Markdown.
#[must_use]
pub fn escape_table_cell(s: &str) -> (r: String)
    ensures
        r@ == markdown::escape_table_cell(s@),
{
    let a = text::replace(s, "|", "\\|");
    let b = text::replace(&a, "\r\n", "<br>");
    let c = text::replace(&b, "\n", "<br>");
    text::replace(&c, "\r", "<br>")
}

fn escape_url(u: &str) -> (r: String)
    ensures
        r@ == markdown::escape_url(u@),
{
    let t = text::trim(u);
    if text::contains_char(&t, ' ') || text::contains_char(&t, '(') || text::contains_char(
        &t,
        ')',
    ) {
        let a = text::replace(&t, "<", "");
        let b = text::replace(&a, ">", "");
        text::cat3("<", &b, ">")
    } else {
        t
    }
}

fn html_escape(s: &str) -> (r: String)
    ensures
        r@ == markdown::html_escape(s@),
{
    let a = text::replace(s, "&", "&amp;");
    let b = text::replace(&a, "<", "&lt;");
    text::replace(&b, ">", "&gt;")
}

fn longest_backtick_run(s: &str) -> (r: usize)
    ensures
        r == markdown::longest_backtick_run(s@),
{
    let v = text::to_chars(s);
    let mut longest: usize = 0;
    let mut run: usize = 0;
    let mut i: usize = 0;
    while i < v.len()
        invariant
            i <= v.len(),
            run <= i,
            longest <= i,
            run == markdown::backtick_tail(v@.take(i as int)),
            longest == markdown::longest_backtick_run(v@.take(i as int)),
        decreases v@.len() - i,
    {
        assert(v@.take(i + 1).drop_last() =~= v@.take(i as int));
        if v[i] == '`' {
            run += 1;
            if run > longest {
                longest = run;
            }
        } else {
            run = 0;
        }
        i += 1;
    }
    assert(v@.take(v@.len() as int) =~= v@);
    longest
}

fn fence_for(body: &str) -> (r: String)
    ensures
        r@ == markdown::fence_for(body@),
{
    let n: usize = longest_backtick_run(body);
    let mut fence = text::repeat(
        "`",
        if n > 2 {
            n
        } else {
            2
        },
    );
    fence.append("`");
    fence
}

fn yaml_key(k: &str) -> (r: String)
    ensures
        r@ == markdown::yaml_key(k@),
{
    let v = text::to_chars(k);
    let mut bare: bool = v.len() > 0;
    let mut i: usize = 0;
    while i < v.len()
        invariant
            i <= v@.len(),
            v@ == k@,
            bare ==> v@.len() > 0,
            bare ==> forall|j: int|
                0 <= j < i ==> (chars::is_ascii_alnum(#[trigger] v@[j]) || v@[j] == '_' || v@[j]
                    == '-'),
            !bare ==> !markdown::is_bare_key(v@),
        decreases v@.len() - i,
    {
        let c: char = v[i];
        if !(text::is_ascii_alnum(c) || c == '_' || c == '-') {
            assert(!(chars::is_ascii_alnum(v@[i as int]) || v@[i as int] == '_' || v@[i as int]
                == '-'));
            bare = false;
        }
        i += 1;
    }
    if bare {
        k.to_owned()
    } else {
        let a = text::replace(k, "\\", "\\\\");
        let b = text::replace(&a, "\"", "\\\"");
        text::cat3("\"", &b, "\"")
    }
}

fn scalar(v: &str) -> (r: String)
    ensures
        r@ == markdown::scalar(v@),
{
    let a = text::replace(v, "\\", "\\\\");
    let b = text::replace(&a, "\"", "\\\"");
    let c = text::replace(&b, "\n", " ");
    let d = text::replace(&c, "\r", " ");
    text::cat3("\"", &d, "\"")
}

} // verus!

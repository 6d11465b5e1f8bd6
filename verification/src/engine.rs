//! Detection, conversion and rendering in one.

use vstd::prelude::*;
use crate::chars;
use crate::config::ConvertOptions;
use crate::converters::builtin;
use crate::converters::builtin::{Builtin, builtin_registry};
use crate::converters::extract::Extractor;
use crate::cx;
use crate::cx::{Budget, ConvertCx, CxV, Limits};
use crate::detect;
use crate::detect::{Detection, DetectionV};
use crate::error;
use crate::error::{ConvertError, ErrorV, Warning, WarningKind, WarningV};
use crate::ir::{Document, DocumentV};
use crate::markdown;
use crate::registry;
use crate::registry::{Converter, ConverterRegistry, Entry};
use crate::render;
use crate::render::{RenderOptions, Rendered};
use crate::stream_info;
use crate::stream_info::{Probe, StreamInfo, StreamInfoV};
use crate::template;
use crate::template::{ExtrasV, RenderExtras, Templates, TemplatesV};
use crate::text;

verus! {

/// A finished conversion.
#[derive(Debug)]
pub struct Conversion {
    pub markdown: String,
    pub document: Document,
    /// The name of the converter that did it.
    pub converter: &'static str,
    /// What the guess that was converted rests on.
    pub detected_via: &'static str,
    /// The document's warnings and the renderer's.
    pub warnings: Vec<Warning>,
}

/// The value of a [`Conversion`].
#[verifier::ext_equal]
pub struct ConversionV {
    pub markdown: Seq<char>,
    pub document: DocumentV,
    pub converter: Seq<char>,
    pub detected_via: Seq<char>,
    pub warnings: Seq<WarningV>,
}

impl View for Conversion {
    type V = ConversionV;

    open spec fn view(&self) -> ConversionV {
        ConversionV {
            markdown: self.markdown@,
            document: self.document@,
            converter: self.converter@,
            detected_via: self.detected_via@,
            warnings: error::warnings_view(self.warnings@),
        }
    }
}

impl Clone for Conversion {
    fn clone(&self) -> (r: Self)
        ensures
            r@ == self@,
    {
        Conversion {
            markdown: self.markdown.clone(),
            document: self.document.clone(),
            converter: self.converter,
            detected_via: self.detected_via,
            warnings: error::clone_warnings(&self.warnings),
        }
    }
}

impl Conversion {
    /// The document's title.
    #[must_use]
    pub fn title(&self) -> (r: Option<&str>)
        ensures
            r is Some == self@.document.title is Some,
            r matches Some(t) ==> self@.document.title == Some(t@),
    {
        match &self.document.title {
            Some(t) => Some(t.as_str()),
            None => None,
        }
    }
}

/// Converts documents with the converters of a registry; the host runs the
/// templates.
pub struct Engine<C, X> {
    registry: ConverterRegistry<C>,
    options: ConvertOptions,
    templates: Option<Templates>,
    tools: X,
}

/// A document, the name of the converter that made it and the guess that it
/// was made on.
pub type Attempt = (DocumentV, Seq<char>, int);

/// A document, the name of the converter that made it and what the guess that
/// it was made on rests on.
pub type Made = (DocumentV, Seq<char>, Seq<char>);

/// What may come of trying the converters on the guesses from the `g`-th on,
/// in the first of them the converters from the `k`-th on. A limit ends the
/// attempts, any other error is remembered.
pub open spec fn attempts_from<C: Converter>(
    entries: Seq<Entry<C>>,
    bytes: Seq<u8>,
    guesses: Seq<StreamInfoV>,
    g: int,
    k: int,
    last: Option<ErrorV>,
    c: CxV,
    post: CxV,
    r: Result<Attempt, ErrorV>,
) -> bool
    decreases guesses.len() - g, entries.len() - k,
{
    if g < 0 || k < 0 || g >= guesses.len() {
        post == c && r == Err::<Attempt, ErrorV>(registry::no_result(guesses, last))
    } else if k >= entries.len() {
        attempts_from(entries, bytes, guesses, g + 1, 0, last, c, post, r)
    } else if !entries[k].converter.takes(stream_info::spec_probe(bytes), guesses[g]) {
        attempts_from(entries, bytes, guesses, g, k + 1, last, c, post, r)
    } else {
        (post == c && (r matches Err(e) && cx::timed_out(e, c.limits))) || exists|
            mid: CxV,
            out: Result<DocumentV, ErrorV>,
        |
            c.grows_to(mid) && #[trigger] entries[k].converter.converts(
                bytes,
                guesses[g],
                c,
                mid,
                out,
            ) && (match out {
                Ok(d) => post == mid && r == Ok::<Attempt, ErrorV>(
                    (d, entries[k].converter.named(), g),
                ),
                Err(f) => if registry::is_limit(out) {
                    post == mid && r == Err::<Attempt, ErrorV>(f)
                } else {
                    attempts_from(entries, bytes, guesses, g, k + 1, Some(f), mid, post, r)
                },
            })
    }
}

/// The outcome with a note on a type that was declared wrongly, and with what
/// the guess rests on.
pub open spec fn with_note(r: Result<Attempt, ErrorV>, d: DetectionV) -> Result<Made, ErrorV> {
    match r {
        Ok(p) => Ok((registry::noted(p.0, d.mismatch), p.1, d.signals[p.2].name())),
        Err(e) => Err(e),
    }
}

/// What converting an input to a document may give.
pub open spec fn converts_to<C: Converter>(
    entries: Seq<Entry<C>>,
    bytes: Seq<u8>,
    info: StreamInfoV,
    pre: CxV,
    post: CxV,
    r: Result<Made, ErrorV>,
) -> bool {
    let d = detect::spec_detect(bytes, info);
    exists|raw: Result<Attempt, ErrorV>|
        r == #[trigger] with_note(raw, d) && attempts_from(
            entries,
            bytes,
            d.guesses,
            0,
            0,
            None,
            pre,
            post,
            raw,
        )
}

/// What rendering a document may give.
pub open spec fn may_render<X: Extractor>(
    tools: X,
    t: Option<TemplatesV>,
    d: DocumentV,
    opts: RenderOptions,
    limits: Limits,
    x: ExtrasV,
    out: Result<(Seq<char>, Seq<WarningV>), ErrorV>,
) -> bool {
    match t {
        Some(t) => template::may_template(tools, t, d, opts, limits, x, out),
        None => out == Ok::<(Seq<char>, Seq<WarningV>), ErrorV>(
            (
                markdown::markdown(render::page(opts, limits), d),
                markdown::warnings(render::page(opts, limits), d),
            ),
        ),
    }
}

pub open spec fn ir_view(r: Result<(Document, &'static str, &'static str), ConvertError>) -> Result<
    Made,
    ErrorV,
> {
    match r {
        Ok(p) => Ok((p.0@, p.1@, p.2@)),
        Err(e) => Err(e@),
    }
}

pub open spec fn run_view(r: Result<(Document, &'static str, usize), ConvertError>) -> Result<
    Attempt,
    ErrorV,
> {
    match r {
        Ok(p) => Ok((p.0@, p.1@, p.2 as int)),
        Err(e) => Err(e@),
    }
}

pub open spec fn conversion_view(r: Result<Conversion, ConvertError>) -> Result<
    ConversionV,
    ErrorV,
> {
    match r {
        Ok(c) => Ok(c@),
        Err(e) => Err(e@),
    }
}

/// The conversion that a document and its rendering make.
pub open spec fn assembled(
    d: DocumentV,
    name: Seq<char>,
    via: Seq<char>,
    rendered: (Seq<char>, Seq<WarningV>),
) -> ConversionV {
    ConversionV {
        markdown: rendered.0,
        document: d,
        converter: name,
        detected_via: via,
        warnings: d.warnings + rendered.1,
    }
}

/// The outcome of a conversion, given what converting and what rendering gave.
pub open spec fn finished(
    out: Result<Made, ErrorV>,
    text: Result<(Seq<char>, Seq<WarningV>), ErrorV>,
) -> Result<ConversionV, ErrorV> {
    match (out, text) {
        (Err(e), _) => Err(e),
        (Ok(_), Err(e)) => Err(e),
        (Ok(p), Ok(s)) => Ok(assembled(p.0, p.1, p.2, s)),
    }
}

/// What converting and rendering an input may give.
pub open spec fn conversion_holds<C: Converter, X: Extractor>(
    entries: Seq<Entry<C>>,
    tools: X,
    t: Option<TemplatesV>,
    options: ConvertOptions,
    bytes: Seq<u8>,
    info: StreamInfoV,
    pre: CxV,
    post: CxV,
    r: Result<ConversionV, ErrorV>,
) -> bool {
    let x = ExtrasV { source: Some(info), now: None };
    exists|out: Result<Made, ErrorV>, text: Result<(Seq<char>, Seq<WarningV>), ErrorV>|
        #![trigger converts_to(entries, bytes, info, pre, post, out), finished(out, text)]
        {
            &&& converts_to(entries, bytes, info, pre, post, out)
            &&& out matches Ok(p) ==> may_render(tools, t, p.0, options.output, options.limits, x, text)
            &&& r == finished(out, text)
        }
}

/// The first name that no converter has.
pub open spec fn first_missing(names: Seq<Seq<char>>, have: Seq<Seq<char>>) -> Option<Seq<char>>
    decreases names.len(),
{
    if names.len() == 0 {
        None
    } else if !have.contains(names[0]) {
        Some(names[0])
    } else {
        first_missing(names.skip(1), have)
    }
}

pub open spec fn missing_error(want: Seq<char>, have: Seq<Seq<char>>) -> ErrorV {
    ErrorV::InvalidInput(
        "formats.enable names "@ + text::quoted_debug(want)
            + ", which is not a converter in this build (available: "@ + chars::join(have, ", "@)
            + ")"@,
    )
}

/// The entries that the options leave, or why they cannot be met.
pub open spec fn selected<C: Converter>(entries: Seq<Entry<C>>, options: ConvertOptions) -> Result<
    Seq<Entry<C>>,
    ErrorV,
> {
    match options.formats.enable {
        None => Ok(entries),
        Some(names) => match first_missing(chars::texts(names@), registry::names_of(entries)) {
            Some(want) => Err(missing_error(want, registry::names_of(entries))),
            None => {
                let kept = registry::retained(entries, chars::texts(names@));
                if kept.len() == 0 {
                    Err(ErrorV::InvalidInput("formats.enable left no converters registered"@))
                } else {
                    Ok(kept)
                }
            },
        },
    }
}

/// What compiling the templates of the options may give.
pub open spec fn may_compile<X: Extractor>(
    tools: X,
    options: ConvertOptions,
    r: Result<Option<TemplatesV>, ErrorV>,
) -> bool {
    match (options.templates, r) {
        (None, _) => r == Ok::<Option<TemplatesV>, ErrorV>(None),
        (Some(s), Ok(Some(t))) => template::compiles(tools, template::spec_view(s), Ok(t)),
        (Some(s), Err(e)) => template::compiles(tools, template::spec_view(s), Err(e)),
        (Some(_), Ok(None)) => false,
    }
}

fn owned(v: &Vec<&'static str>) -> (r: Vec<String>)
    ensures
        chars::texts(r@) == registry::strs(v@),
{
    let mut out: Vec<String> = Vec::new();
    let mut i: usize = 0;
    while i < v.len()
        invariant
            i <= v@.len(),
            out@.len() == i,
            forall|k: int| 0 <= k < i ==> (#[trigger] out@[k])@ == v@[k]@,
        decreases v@.len() - i,
    {
        out.push(v[i].to_owned());
        i += 1;
    }
    assert(chars::texts(out@) =~= registry::strs(v@));
    out
}

fn has_name(have: &Vec<String>, want: &str) -> (r: bool)
    ensures
        r == chars::texts(have@).contains(want@),
{
    let ghost v = chars::texts(have@);
    let mut i: usize = 0;
    while i < have.len()
        invariant
            i <= have@.len(),
            v == chars::texts(have@),
            forall|k: int| 0 <= k < i ==> #[trigger] v[k] != want@,
        decreases have@.len() - i,
    {
        assert(v[i as int] == have@[i as int]@);
        if text::eq(&have[i], want) {
            return true;
        }
        i += 1;
    }
    false
}

fn check_names(names: &Vec<String>, have: &Vec<String>) -> (r: Result<(), ConvertError>)
    ensures
        r is Ok <==> first_missing(chars::texts(names@), chars::texts(have@)) is None,
        r matches Err(e) ==> first_missing(
            chars::texts(names@),
            chars::texts(have@),
        ) matches Some(w) && e@ == missing_error(w, chars::texts(have@)),
{
    let ghost n = chars::texts(names@);
    let ghost h = chars::texts(have@);
    assert(n.skip(0) =~= n);
    let mut i: usize = 0;
    while i < names.len()
        invariant
            i <= names@.len(),
            n == chars::texts(names@),
            h == chars::texts(have@),
            first_missing(n, h) == first_missing(n.skip(i as int), h),
        decreases names@.len() - i,
    {
        assert(n.skip(i as int)[0] == names@[i as int]@);
        assert(n.skip(i as int).skip(1) =~= n.skip(i + 1));
        if !has_name(have, &names[i]) {
            let q = text::debug(&names[i]);
            let list = text::join(have, ", ");
            let a = text::cat3(
                "formats.enable names ",
                &q,
                ", which is not a converter in this build (available: ",
            );
            let m = text::cat3(&a, &list, ")");
            return Err(ConvertError::InvalidInput(m));
        }
        i += 1;
    }
    Ok(())
}

impl<C: Converter, X: Extractor> Engine<C, X> {
    /// The converters, in the order in which they are tried.
    pub closed spec fn entries(self) -> Seq<Entry<C>> {
        self.registry.entries()
    }

    /// What the engine was built from.
    pub closed spec fn settings(self) -> ConvertOptions {
        self.options
    }

    /// The compiled templates.
    pub closed spec fn compiled(self) -> Option<TemplatesV> {
        match self.templates {
            Some(t) => Some(t@),
            None => None,
        }
    }

    /// The host.
    pub closed spec fn host(self) -> X {
        self.tools
    }

    /// An engine over a registry. Selecting a format that is not there and
    /// selecting none are errors, and so is a template that does not compile.
    pub fn with_registry(
        registry: ConverterRegistry<C>,
        options: ConvertOptions,
        tools: X,
    ) -> (r: Result<Self, ConvertError>)
        ensures
            r matches Ok(e) ==> {
                &&& selected(registry.entries(), options) == Ok::<Seq<Entry<C>>, ErrorV>(e.entries())
                &&& may_compile(tools, options, Ok(e.compiled()))
                &&& e.settings() == options
                &&& e.host() == tools
            },
            r matches Err(x) ==> match selected(registry.entries(), options) {
                Err(s) => x@ == s,
                Ok(_) => may_compile(tools, options, Err(x@)),
            },
    {
        let mut registry = registry;
        if let Some(names) = &options.formats.enable {
            let have = owned(&registry.names());
            if let Err(e) = check_names(names, &have) {
                return Err(e);
            }
            registry.retain_names(names.as_slice());
            if registry.is_empty() {
                return Err(
                    ConvertError::InvalidInput(
                        "formats.enable left no converters registered".to_owned(),
                    ),
                );
            }
        }
        let templates = match &options.templates {
            Some(s) => match Templates::compile(s, &tools) {
                Ok(t) => Some(t),
                Err(e) => {
                    return Err(e);
                },
            },
            None => None,
        };
        Ok(Engine { registry, options, templates, tools })
    }

    /// Adds a converter, which is tried before those of the same priority.
    pub fn register(&mut self, converter: C)
        ensures
            final(self).entries() == registry::inserted(
                old(self).entries(),
                (Entry { converter, priority: converter.ranked() }),
            ),
            final(self).settings() == old(self).settings(),
            final(self).compiled() == old(self).compiled(),
            final(self).host() == old(self).host(),
    {
        self.registry.register(converter);
    }

    /// What the engine was built from.
    #[must_use]
    pub fn options(&self) -> (r: &ConvertOptions)
        ensures
            *r == self.settings(),
    {
        &self.options
    }

    /// The converters' names, in the order in which they are tried.
    #[must_use]
    pub fn converter_names(&self) -> (r: Vec<&'static str>)
        ensures
            registry::strs(r@) == registry::names_of(self.entries()),
    {
        self.registry.names()
    }

    /// Converts an input on a fresh budget.
    pub fn convert(&self, bytes: &[u8], info: &StreamInfo) -> (r: Result<Conversion, ConvertError>)
        ensures
            bytes@.len() > self.settings().limits.max_input_bytes ==> conversion_view(r) == Err::<
                ConversionV,
                ErrorV,
            >(
                cx::limit_error(
                    "max_input_bytes"@,
                    bytes@.len() as u64,
                    self.settings().limits.max_input_bytes,
                ),
            ),
            bytes@.len() <= self.settings().limits.max_input_bytes ==> exists|post: CxV|
                #[trigger] conversion_holds(
                    self.entries(),
                    self.host(),
                    self.compiled(),
                    self.settings(),
                    bytes@,
                    info@,
                    fresh_cx(self.settings().limits),
                    post,
                    conversion_view(r),
                ),
    {
        let mut budget = Budget::new(self.options.limits.clone());
        if let Err(e) = budget.check_input_size(bytes.len() as u64) {
            return Err(e);
        }
        let mut cx = ConvertCx::new(&mut budget);
        assert(cx@ == fresh_cx(self.settings().limits));
        let r = self.convert_with(bytes, info, &mut cx);
        assert(conversion_holds(
            self.entries(),
            self.host(),
            self.compiled(),
            self.settings(),
            bytes@,
            info@,
            fresh_cx(self.settings().limits),
            cx@,
            conversion_view(r),
        ));
        r
    }

    /// Converts an input within a conversion that is already under way.
    pub fn convert_with(&self, bytes: &[u8], info: &StreamInfo, cx: &mut ConvertCx<'_>) -> (r:
        Result<Conversion, ConvertError>)
        ensures
            *final(final(cx).budget) == *final(old(cx).budget),
            final(cx).start() == old(cx).start(),
            old(cx)@.grows_to(final(cx)@),
            conversion_holds(
                self.entries(),
                self.host(),
                self.compiled(),
                self.settings(),
                bytes@,
                info@,
                old(cx)@,
                final(cx)@,
                conversion_view(r),
            ),
    {
        let out = self.convert_to_ir(bytes, info, cx);
        let ghost o = ir_view(out);
        assert(converts_to(self.entries(), bytes@, info@, old(cx)@, cx@, o));
        let (document, converter, detected_via) = match out {
            Ok(p) => p,
            Err(e) => {
                assert(conversion_view(Err(e)) == finished(o, Err(e@)));
                return Err(e);
            },
        };
        let extras = RenderExtras { source: Some(info), now: None };
        assert(extras@ =~= ExtrasV { source: Some(info@), now: None });
        let text = self.render_document_with(&document, extras);
        let ghost w = template::rendered_view(text);
        let rendered = match text {
            Ok(x) => x,
            Err(e) => {
                assert(conversion_view(Err(e)) == finished(o, w));
                return Err(e);
            },
        };
        let mut warnings = error::clone_warnings(&document.warnings);
        error::append_warnings(&mut warnings, &rendered.warnings);
        let c = Conversion {
            markdown: rendered.markdown,
            document,
            converter,
            detected_via,
            warnings,
        };
        assert(conversion_view(Ok(c)) == finished(o, w));
        Ok(c)
    }

    /// Converts an input to a document: the document, the converter's name and
    /// what the guess that it was made on rests on.
    pub fn convert_to_ir(&self, bytes: &[u8], info: &StreamInfo, cx: &mut ConvertCx<'_>) -> (r:
        Result<(Document, &'static str, &'static str), ConvertError>)
        ensures
            *final(final(cx).budget) == *final(old(cx).budget),
            final(cx).start() == old(cx).start(),
            old(cx)@.grows_to(final(cx)@),
            converts_to(self.entries(), bytes@, info@, old(cx)@, final(cx)@, ir_view(r)),
    {
        let detection = detect(bytes, info);
        let run = self.run_converters(bytes, &detection, cx);
        let ghost raw = run_view(run);
        let ghost noted = with_note(raw, detection@);
        match run {
            Ok(p) => {
                let mut document = p.0;
                if let Some(m) = &detection.mismatch {
                    document.warn(Warning::new(WarningKind::TypeMismatch, m));
                }
                let via = detection.signals[p.2].as_str();
                assert(noted == Ok::<Made, ErrorV>((document@, p.1@, via@)));
                Ok((document, p.1, via))
            },
            Err(e) => {
                assert(noted == Err::<Made, ErrorV>(e@));
                Err(e)
            },
        }
    }

    /// Renders a document.
    pub fn render_document(&self, doc: &Document) -> (r: Result<Rendered, ConvertError>)
        ensures
            may_render(
                self.host(),
                self.compiled(),
                doc@,
                self.settings().output,
                self.settings().limits,
                ExtrasV { source: None, now: None },
                template::rendered_view(r),
            ),
    {
        let extras = RenderExtras::default();
        assert(extras@ =~= ExtrasV { source: None, now: None });
        self.render_document_with(doc, extras)
    }

    /// Renders a document, with more for the templates to use.
    pub fn render_document_with(&self, doc: &Document, extras: RenderExtras<'_>) -> (r: Result<
        Rendered,
        ConvertError,
    >)
        ensures
            may_render(
                self.host(),
                self.compiled(),
                doc@,
                self.settings().output,
                self.settings().limits,
                extras@,
                template::rendered_view(r),
            ),
    {
        match &self.templates {
            Some(t) => t.render(&self.tools, doc, &self.options.output, &self.options.limits, extras),
            None => Ok(render::render(doc, &self.options.output, &self.options.limits)),
        }
    }

    fn run_converters(&self, bytes: &[u8], detection: &Detection, cx: &mut ConvertCx<'_>) -> (r:
        Result<(Document, &'static str, usize), ConvertError>)
        ensures
            *final(final(cx).budget) == *final(old(cx).budget),
            final(cx).start() == old(cx).start(),
            old(cx)@.grows_to(final(cx)@),
            r matches Ok(p) ==> p.2 < detection@.guesses.len(),
            attempts_from(
                self.entries(),
                bytes@,
                detection@.guesses,
                0,
                0,
                None,
                old(cx)@,
                final(cx)@,
                run_view(r),
            ),
    {
        let probe = Probe::new(bytes);
        let ghost pre = cx@;
        let ghost es = self.entries();
        let ghost gs = detection@.guesses;
        let converters = self.registry.iter();
        let mut last: Option<ConvertError> = None;
        let mut g: usize = 0;
        while g < detection.guesses.len()
            invariant
                converters@.len() == es.len(),
                forall|i: int|
                    0 <= i < es.len() ==> *(#[trigger] converters@[i]) == es[i].converter,
                g <= detection.guesses@.len(),
                gs == detection@.guesses,
                es == self.entries(),
                probe@ == stream_info::spec_probe(bytes@),
                pre == old(cx)@,
                *final(cx.budget) == *final(old(cx).budget),
                cx.start() == old(cx).start(),
                pre.grows_to(cx@),
                forall|p: CxV, q: Result<Attempt, ErrorV>| #[trigger]
                    attempts_from(
                        es,
                        bytes@,
                        gs,
                        g as int,
                        0,
                        registry::error_view(last),
                        cx@,
                        p,
                        q,
                    ) ==> attempts_from(es, bytes@, gs, 0, 0, None, pre, p, q),
            decreases detection.guesses@.len() - g,
        {
            let guess = &detection.guesses[g];
            assert(gs[g as int] == guess@);
            let mut k: usize = 0;
            while k < converters.len()
                invariant
                    converters@.len() == es.len(),
                    forall|i: int|
                        0 <= i < es.len() ==> *(#[trigger] converters@[i]) == es[i].converter,
                    g < detection.guesses@.len(),
                    gs == detection@.guesses,
                    gs[g as int] == guess@,
                    es == self.entries(),
                    k <= es.len(),
                    probe@ == stream_info::spec_probe(bytes@),
                    pre == old(cx)@,
                    *final(cx.budget) == *final(old(cx).budget),
                    cx.start() == old(cx).start(),
                    pre.grows_to(cx@),
                    forall|p: CxV, q: Result<Attempt, ErrorV>| #[trigger]
                        attempts_from(
                            es,
                            bytes@,
                            gs,
                            g as int,
                            k as int,
                            registry::error_view(last),
                            cx@,
                            p,
                            q,
                        ) ==> attempts_from(es, bytes@, gs, 0, 0, None, pre, p, q),
                decreases es.len() - k,
            {
                let ghost c = cx@;
                let ghost l = registry::error_view(last);
                let conv = converters[k];
                if conv.accepts(&probe, guess) {
                    if let Err(e) = cx.budget().check_deadline() {
                        assert(attempts_from(
                            es,
                            bytes@,
                            gs,
                            g as int,
                            k as int,
                            l,
                            c,
                            c,
                            Err::<Attempt, ErrorV>(e@),
                        ));
                        return Err(e);
                    }
                    let out = conv.convert(bytes, guess, cx);
                    let ghost o = registry::outcome(out);
                    assert(es[k as int].converter.converts(bytes@, gs[g as int], c, cx@, o));
                    match out {
                        Ok(d) => {
                            assert(attempts_from(
                                es,
                                bytes@,
                                gs,
                                g as int,
                                k as int,
                                l,
                                c,
                                cx@,
                                Ok::<Attempt, ErrorV>((d@, conv.named(), g as int)),
                            ));
                            return Ok((d, conv.name(), g));
                        },
                        Err(e) => {
                            if let ConvertError::LimitExceeded { .. } = &e {
                                assert(attempts_from(
                                    es,
                                    bytes@,
                                    gs,
                                    g as int,
                                    k as int,
                                    l,
                                    c,
                                    cx@,
                                    Err::<Attempt, ErrorV>(e@),
                                ));
                                return Err(e);
                            }
                            last = Some(e);
                        },
                    }
                }
                assert forall|p: CxV, q: Result<Attempt, ErrorV>| #[trigger]
                    attempts_from(
                        es,
                        bytes@,
                        gs,
                        g as int,
                        k + 1,
                        registry::error_view(last),
                        cx@,
                        p,
                        q,
                    ) implies attempts_from(es, bytes@, gs, 0, 0, None, pre, p, q) by {
                    assert(attempts_from(es, bytes@, gs, g as int, k as int, l, c, p, q));
                }
                k += 1;
            }
            assert forall|p: CxV, q: Result<Attempt, ErrorV>| #[trigger]
                attempts_from(
                    es,
                    bytes@,
                    gs,
                    g + 1,
                    0,
                    registry::error_view(last),
                    cx@,
                    p,
                    q,
                ) implies attempts_from(es, bytes@, gs, 0, 0, None, pre, p, q) by {
                assert(attempts_from(
                    es,
                    bytes@,
                    gs,
                    g as int,
                    k as int,
                    registry::error_view(last),
                    cx@,
                    p,
                    q,
                ));
            }
            g += 1;
        }
        let e = registry::give_up(&detection.guesses, last);
        assert(attempts_from(
            es,
            bytes@,
            gs,
            g as int,
            0,
            registry::error_view(last),
            cx@,
            cx@,
            Err::<Attempt, ErrorV>(e@),
        ));
        Err(e)
    }
}

/// A conversion's context before anything was charged.
pub open spec fn fresh_cx(limits: Limits) -> CxV {
    CxV { limits, expanded: 0, embedded: 0, depth: 0 }
}

impl<X: Extractor> Engine<Builtin<X>, X> {
    /// An engine with the library's own converters.
    pub fn new(options: ConvertOptions, tools: X) -> (r: Result<Self, ConvertError>)
        ensures
            r matches Ok(e) ==> {
                &&& selected(builtin::builtin_entries(tools), options) == Ok::<
                    Seq<Entry<Builtin<X>>>,
                    ErrorV,
                >(e.entries())
                &&& may_compile(tools, options, Ok(e.compiled()))
                &&& e.settings() == options
                &&& e.host() == tools
            },
            r matches Err(x) ==> match selected(builtin::builtin_entries(tools), options) {
                Err(s) => x@ == s,
                Ok(_) => may_compile(tools, options, Err(x@)),
            },
    {
        let registry = builtin_registry(tools);
        Engine::with_registry(registry, options, tools)
    }
}

/// Where no converter accepts any of the guesses, the input is unsupported, and
/// nothing was charged.
pub proof fn nothing_accepted_is_unsupported<C: Converter>(
    entries: Seq<Entry<C>>,
    bytes: Seq<u8>,
    guesses: Seq<StreamInfoV>,
    g: int,
    k: int,
    c: CxV,
    post: CxV,
    r: Result<Attempt, ErrorV>,
)
    requires
        0 <= g,
        0 <= k,
        forall|i: int, j: int|
            0 <= i < guesses.len() && 0 <= j < entries.len() ==> !(
            #[trigger] entries[j].converter.takes(stream_info::spec_probe(bytes), guesses[i])),
        attempts_from(entries, bytes, guesses, g, k, None, c, post, r),
    ensures
        post == c,
        r == Err::<Attempt, ErrorV>(
            ErrorV::Unsupported { tried: chars::join(registry::labels(guesses), ", "@) },
        ),
    decreases guesses.len() - g, entries.len() - k,
{
    if g < guesses.len() {
        if k >= entries.len() {
            nothing_accepted_is_unsupported(entries, bytes, guesses, g + 1, 0, c, post, r);
        } else {
            nothing_accepted_is_unsupported(entries, bytes, guesses, g, k + 1, c, post, r);
        }
    }
}

/// A converter of the registry made the document of a guess that it accepted.
pub open spec fn made_by<C: Converter>(
    entries: Seq<Entry<C>>,
    bytes: Seq<u8>,
    guesses: Seq<StreamInfoV>,
    g: int,
    k: int,
    pre: CxV,
    post: CxV,
    d: DocumentV,
    name: Seq<char>,
) -> bool {
    &&& 0 <= g < guesses.len()
    &&& 0 <= k < entries.len()
    &&& entries[k].converter.takes(stream_info::spec_probe(bytes), guesses[g])
    &&& entries[k].converter.converts(bytes, guesses[g], pre, post, Ok::<DocumentV, ErrorV>(d))
    &&& entries[k].converter.named() == name
}

/// A document comes from a converter that accepted the guess that is reported
/// with it, and the name that is reported is that converter's.
pub proof fn documents_come_from_an_accepting_converter<C: Converter>(
    entries: Seq<Entry<C>>,
    bytes: Seq<u8>,
    guesses: Seq<StreamInfoV>,
    g: int,
    k: int,
    last: Option<ErrorV>,
    c: CxV,
    post: CxV,
    d: DocumentV,
    name: Seq<char>,
    i: int,
)
    requires
        0 <= g,
        0 <= k,
        attempts_from(
            entries,
            bytes,
            guesses,
            g,
            k,
            last,
            c,
            post,
            Ok::<Attempt, ErrorV>((d, name, i)),
        ),
    ensures
        exists|j: int, pre: CxV|
            #[trigger] made_by(entries, bytes, guesses, i, j, pre, post, d, name),
    decreases guesses.len() - g, entries.len() - k,
{
    let r = Ok::<Attempt, ErrorV>((d, name, i));
    if g < guesses.len() {
        if k >= entries.len() {
            documents_come_from_an_accepting_converter(
                entries, bytes, guesses, g + 1, 0, last, c, post, d, name, i,
            );
        } else if !entries[k].converter.takes(stream_info::spec_probe(bytes), guesses[g]) {
            documents_come_from_an_accepting_converter(
                entries, bytes, guesses, g, k + 1, last, c, post, d, name, i,
            );
        } else {
            let (mid, out) = choose|mid: CxV, out: Result<DocumentV, ErrorV>|
                c.grows_to(mid) && #[trigger] entries[k].converter.converts(
                    bytes,
                    guesses[g],
                    c,
                    mid,
                    out,
                ) && (match out {
                    Ok(x) => post == mid && r == Ok::<Attempt, ErrorV>(
                        (x, entries[k].converter.named(), g),
                    ),
                    Err(f) => if registry::is_limit(out) {
                        post == mid && r == Err::<Attempt, ErrorV>(f)
                    } else {
                        attempts_from(entries, bytes, guesses, g, k + 1, Some(f), mid, post, r)
                    },
                });
            match out {
                Ok(x) => {
                    assert(made_by(entries, bytes, guesses, g, k, c, post, d, name));
                },
                Err(f) => {
                    documents_come_from_an_accepting_converter(
                        entries, bytes, guesses, g, k + 1, Some(f), mid, post, d, name, i,
                    );
                },
            }
        }
    }
}

/// The document of an outcome, with the note that a member's carries.
pub open spec fn member_outcome(
    raw: Result<Attempt, ErrorV>,
    mismatch: Option<Seq<char>>,
) -> Result<DocumentV, ErrorV> {
    match raw {
        Ok(p) => Ok(registry::noted(p.0, mismatch)),
        Err(e) => Err(e),
    }
}

/// A member of an archive is converted as the same input would be on its own:
/// whatever an engine with the library's converters may give for it at that
/// depth, the archive may find in it.
pub proof fn members_convert_like_inputs<X: Extractor>(
    tools: X,
    bytes: Seq<u8>,
    guesses: Seq<StreamInfoV>,
    mismatch: Option<Seq<char>>,
    g: int,
    k: int,
    last: Option<ErrorV>,
    c: CxV,
    post: CxV,
    raw: Result<Attempt, ErrorV>,
)
    requires
        0 <= g,
        0 <= k,
        attempts_from(
            builtin::builtin_entries(tools),
            bytes,
            guesses,
            g,
            k,
            last,
            c,
            post,
            raw,
        ),
    ensures
        builtin::tries_from(
            tools,
            bytes,
            guesses,
            mismatch,
            g,
            k,
            last,
            c,
            post,
            member_outcome(raw, mismatch),
        ),
    decreases guesses.len() - g, builtin::order().len() - k,
{
    let entries = builtin::builtin_entries(tools);
    let r = member_outcome(raw, mismatch);
    if g < guesses.len() {
        if k >= entries.len() {
            members_convert_like_inputs(
                tools, bytes, guesses, mismatch, g + 1, 0, last, c, post, raw,
            );
        } else {
            assert(entries[k].converter.kind == builtin::order()[k]);
            if !entries[k].converter.takes(stream_info::spec_probe(bytes), guesses[g]) {
                members_convert_like_inputs(
                    tools, bytes, guesses, mismatch, g, k + 1, last, c, post, raw,
                );
            } else if !(post == c && (raw matches Err(e) && cx::timed_out(e, c.limits))) {
                let (mid, out) = choose|mid: CxV, out: Result<DocumentV, ErrorV>|
                    c.grows_to(mid) && #[trigger] entries[k].converter.converts(
                        bytes,
                        guesses[g],
                        c,
                        mid,
                        out,
                    ) && (match out {
                        Ok(x) => post == mid && raw == Ok::<Attempt, ErrorV>(
                            (x, entries[k].converter.named(), g),
                        ),
                        Err(f) => if registry::is_limit(out) {
                            post == mid && raw == Err::<Attempt, ErrorV>(f)
                        } else {
                            attempts_from(entries, bytes, guesses, g, k + 1, Some(f), mid, post, raw)
                        },
                    });
                assert(mid == crate::converters::zip::counted(c, mid.expanded, mid.embedded));
                assert(crate::converters::zip::ended(mid.expanded, mid.embedded, out));
                if let Err(f) = out {
                    if !registry::is_limit(out) {
                        members_convert_like_inputs(
                            tools, bytes, guesses, mismatch, g, k + 1, Some(f), mid, post, raw,
                        );
                    }
                }
            }
        }
    }
}

/// What was degraded reaches the caller: the document's warnings come first,
/// then the renderer's, and a type that was declared wrongly is among them.
pub proof fn warnings_reach_the_caller<C: Converter, X: Extractor>(
    entries: Seq<Entry<C>>,
    tools: X,
    t: Option<TemplatesV>,
    options: ConvertOptions,
    bytes: Seq<u8>,
    info: StreamInfoV,
    pre: CxV,
    post: CxV,
    v: ConversionV,
)
    requires
        conversion_holds(
            entries,
            tools,
            t,
            options,
            bytes,
            info,
            pre,
            post,
            Ok::<ConversionV, ErrorV>(v),
        ),
    ensures
        forall|i: int|
            0 <= i < v.document.warnings.len() ==> #[trigger] v.warnings[i]
                == v.document.warnings[i],
        v.document.warnings.len() <= v.warnings.len(),
        t is None ==> v.warnings == v.document.warnings + markdown::warnings(
            render::page(options.output, options.limits),
            v.document,
        ),
        detect::spec_detect(bytes, info).mismatch matches Some(m) ==> v.warnings.contains(
            WarningV { kind: WarningKind::TypeMismatch, message: m },
        ),
{
    let d = detect::spec_detect(bytes, info);
    let x = ExtrasV { source: Some(info), now: None };
    let (out, text) = choose|
        out: Result<Made, ErrorV>,
        text: Result<(Seq<char>, Seq<WarningV>), ErrorV>,
    |
        #![trigger converts_to(entries, bytes, info, pre, post, out), finished(out, text)]
        {
            &&& converts_to(entries, bytes, info, pre, post, out)
            &&& out matches Ok(p) ==> may_render(tools, t, p.0, options.output, options.limits, x, text)
            &&& Ok::<ConversionV, ErrorV>(v) == finished(out, text)
        };
    let raw = choose|raw: Result<Attempt, ErrorV>|
        out == #[trigger] with_note(raw, d) && attempts_from(
            entries,
            bytes,
            d.guesses,
            0,
            0,
            None,
            pre,
            post,
            raw,
        );
    if let Some(m) = d.mismatch {
        let inner = raw->Ok_0.0;
        let w = WarningV { kind: WarningKind::TypeMismatch, message: m };
        assert(v.document == inner.warned(w));
        assert(v.document.warnings[inner.warnings.len() as int] == w);
        assert(v.warnings[inner.warnings.len() as int] == w);
    }
}

/// What converting to a document and rendering it give one after the other,
/// converting at once may give.
pub proof fn conversion_is_composed<C: Converter, X: Extractor>(
    entries: Seq<Entry<C>>,
    tools: X,
    t: Option<TemplatesV>,
    options: ConvertOptions,
    bytes: Seq<u8>,
    info: StreamInfoV,
    pre: CxV,
    post: CxV,
    made: Made,
    text: Result<(Seq<char>, Seq<WarningV>), ErrorV>,
)
    requires
        converts_to(entries, bytes, info, pre, post, Ok::<Made, ErrorV>(made)),
        may_render(
            tools,
            t,
            made.0,
            options.output,
            options.limits,
            (ExtrasV { source: Some(info), now: None }),
            text,
        ),
    ensures
        conversion_holds(
            entries,
            tools,
            t,
            options,
            bytes,
            info,
            pre,
            post,
            match text {
                Ok(s) => Ok(assembled(made.0, made.1, made.2, s)),
                Err(e) => Err(e),
            },
        ),
{
    let out = Ok::<Made, ErrorV>(made);
    assert(finished(out, text) == match text {
        Ok(s) => Ok::<ConversionV, ErrorV>(assembled(made.0, made.1, made.2, s)),
        Err(e) => Err(e),
    });
}

/// A conversion at once is made of the two steps: the input was converted to the
/// document that it holds, and that document rendered to its text. The
/// document's warnings come first.
pub proof fn conversions_have_two_steps<C: Converter, X: Extractor>(
    entries: Seq<Entry<C>>,
    tools: X,
    t: Option<TemplatesV>,
    options: ConvertOptions,
    bytes: Seq<u8>,
    info: StreamInfoV,
    pre: CxV,
    post: CxV,
    v: ConversionV,
)
    requires
        conversion_holds(
            entries,
            tools,
            t,
            options,
            bytes,
            info,
            pre,
            post,
            Ok::<ConversionV, ErrorV>(v),
        ),
    ensures
        converts_to(
            entries,
            bytes,
            info,
            pre,
            post,
            Ok::<Made, ErrorV>((v.document, v.converter, v.detected_via)),
        ),
        exists|w: Seq<WarningV>| #[trigger]
            may_render(
                tools,
                t,
                v.document,
                options.output,
                options.limits,
                (ExtrasV { source: Some(info), now: None }),
                Ok::<(Seq<char>, Seq<WarningV>), ErrorV>((v.markdown, w)),
            ) && v.warnings == v.document.warnings + w,
{
    let x = ExtrasV { source: Some(info), now: None };
    let (out, text) = choose|
        out: Result<Made, ErrorV>,
        text: Result<(Seq<char>, Seq<WarningV>), ErrorV>,
    |
        #![trigger converts_to(entries, bytes, info, pre, post, out), finished(out, text)]
        {
            &&& converts_to(entries, bytes, info, pre, post, out)
            &&& out matches Ok(p) ==> may_render(tools, t, p.0, options.output, options.limits, x, text)
            &&& Ok::<ConversionV, ErrorV>(v) == finished(out, text)
        };
    assert(out == Ok::<Made, ErrorV>((v.document, v.converter, v.detected_via)));
    assert(text == Ok::<(Seq<char>, Seq<WarningV>), ErrorV>((v.markdown, text->Ok_0.1)));
}

/// The converter gives one result for the input, whatever is known of it, as long
/// as the time lasts.
pub open spec fn gives_one_result<C: Converter>(converter: C, bytes: Seq<u8>) -> bool {
    forall|
        info: StreamInfoV,
        pre: CxV,
        m: CxV,
        a: Result<DocumentV, ErrorV>,
        n: CxV,
        b: Result<DocumentV, ErrorV>,
    |
        #[trigger] converter.converts(bytes, info, pre, m, a) && #[trigger] converter.converts(
            bytes,
            info,
            pre,
            n,
            b,
        ) && !registry::late(pre, a) && !registry::late(pre, b) ==> m == n && a == b
}

proof fn lemma_attempts_once<C: Converter>(
    entries: Seq<Entry<C>>,
    bytes: Seq<u8>,
    guesses: Seq<StreamInfoV>,
    g: int,
    k: int,
    last: Option<ErrorV>,
    c: CxV,
    p: CxV,
    a: Result<Attempt, ErrorV>,
    q: CxV,
    b: Result<Attempt, ErrorV>,
)
    requires
        forall|i: int|
            0 <= i < entries.len() ==> gives_one_result(#[trigger] entries[i].converter, bytes),
        attempts_from(entries, bytes, guesses, g, k, last, c, p, a),
        attempts_from(entries, bytes, guesses, g, k, last, c, q, b),
        !(a matches Err(e) && cx::timed_out(e, c.limits)),
        !(b matches Err(e) && cx::timed_out(e, c.limits)),
    ensures
        p == q,
        a == b,
    decreases guesses.len() - g, entries.len() - k,
{
    if g < 0 || k < 0 || g >= guesses.len() {
    } else if k >= entries.len() {
        lemma_attempts_once(entries, bytes, guesses, g + 1, 0, last, c, p, a, q, b);
    } else if !entries[k].converter.takes(stream_info::spec_probe(bytes), guesses[g]) {
        lemma_attempts_once(entries, bytes, guesses, g, k + 1, last, c, p, a, q, b);
    } else {
        let (m, x) = choose|mid: CxV, out: Result<DocumentV, ErrorV>|
            c.grows_to(mid) && #[trigger] entries[k].converter.converts(
                bytes,
                guesses[g],
                c,
                mid,
                out,
            ) && (match out {
                Ok(d) => p == mid && a == Ok::<Attempt, ErrorV>(
                    (d, entries[k].converter.named(), g),
                ),
                Err(f) => if registry::is_limit(out) {
                    p == mid && a == Err::<Attempt, ErrorV>(f)
                } else {
                    attempts_from(entries, bytes, guesses, g, k + 1, Some(f), mid, p, a)
                },
            });
        let (n, y) = choose|mid: CxV, out: Result<DocumentV, ErrorV>|
            c.grows_to(mid) && #[trigger] entries[k].converter.converts(
                bytes,
                guesses[g],
                c,
                mid,
                out,
            ) && (match out {
                Ok(d) => q == mid && b == Ok::<Attempt, ErrorV>(
                    (d, entries[k].converter.named(), g),
                ),
                Err(f) => if registry::is_limit(out) {
                    q == mid && b == Err::<Attempt, ErrorV>(f)
                } else {
                    attempts_from(entries, bytes, guesses, g, k + 1, Some(f), mid, q, b)
                },
            });
        assert(gives_one_result(entries[k].converter, bytes));
        assert(m == n && x == y);
        if let Err(f) = x {
            if !registry::is_limit(x) {
                lemma_attempts_once(entries, bytes, guesses, g, k + 1, Some(f), m, p, a, q, b);
            }
        }
    }
}

/// Where the converters and the host give one result each and the time lasts,
/// converting at once equals converting to a document and rendering that: the
/// same document, converter and signal, the rendering's text, and the document's
/// warnings followed by the rendering's.
pub proof fn conversion_equals_its_steps<C: Converter, X: Extractor>(
    entries: Seq<Entry<C>>,
    tools: X,
    t: Option<TemplatesV>,
    options: ConvertOptions,
    bytes: Seq<u8>,
    info: StreamInfoV,
    pre: CxV,
    post: CxV,
    r: Result<ConversionV, ErrorV>,
    post_made: CxV,
    made: Result<Made, ErrorV>,
    text: Result<(Seq<char>, Seq<WarningV>), ErrorV>,
)
    requires
        forall|i: int|
            0 <= i < entries.len() ==> gives_one_result(#[trigger] entries[i].converter, bytes),
        t matches Some(u) ==> template::writes_once(tools, u.env),
        conversion_holds(entries, tools, t, options, bytes, info, pre, post, r),
        converts_to(entries, bytes, info, pre, post_made, made),
        made matches Ok(m) ==> may_render(
            tools,
            t,
            m.0,
            options.output,
            options.limits,
            (ExtrasV { source: Some(info), now: None }),
            text,
        ),
        !(r matches Err(e) && cx::timed_out(e, pre.limits)),
        !(made matches Err(e) && cx::timed_out(e, pre.limits)),
    ensures
        post == post_made,
        r == finished(made, text),
{
    let d = detect::spec_detect(bytes, info);
    let x = ExtrasV { source: Some(info), now: None };
    let (out, own) = choose|
        out: Result<Made, ErrorV>,
        own: Result<(Seq<char>, Seq<WarningV>), ErrorV>,
    |
        #![trigger converts_to(entries, bytes, info, pre, post, out), finished(out, own)]
        {
            &&& converts_to(entries, bytes, info, pre, post, out)
            &&& out matches Ok(p) ==> may_render(
                tools,
                t,
                p.0,
                options.output,
                options.limits,
                x,
                own,
            )
            &&& r == finished(out, own)
        };
    let a = choose|raw: Result<Attempt, ErrorV>|
        out == #[trigger] with_note(raw, d) && attempts_from(
            entries,
            bytes,
            d.guesses,
            0,
            0,
            None,
            pre,
            post,
            raw,
        );
    let b = choose|raw: Result<Attempt, ErrorV>|
        made == #[trigger] with_note(raw, d) && attempts_from(
            entries,
            bytes,
            d.guesses,
            0,
            0,
            None,
            pre,
            post_made,
            raw,
        );
    lemma_attempts_once(entries, bytes, d.guesses, 0, 0, None, pre, post, a, post_made, b);
    assert(out == made);
    if let Ok(m) = made {
        if let Some(u) = t {
            template::rendering_is_determined(
                tools,
                u,
                m.0,
                options.output,
                options.limits,
                x,
                own,
                text,
            );
        }
    }
}

/// Whether a converter may fail on an input.
pub open spec fn fails_on<C: Converter>(converter: C, bytes: Seq<u8>, info: StreamInfoV) -> bool {
    exists|pre: CxV, post: CxV, f: ErrorV| #[trigger]
        converter.converts(bytes, info, pre, post, Err::<DocumentV, ErrorV>(f))
}

proof fn lemma_all_failed<C: Converter>(
    entries: Seq<Entry<C>>,
    bytes: Seq<u8>,
    guesses: Seq<StreamInfoV>,
    g: int,
    k: int,
    last: Option<ErrorV>,
    c: CxV,
    post: CxV,
    r: Result<Attempt, ErrorV>,
    i: int,
    j: int,
)
    requires
        attempts_from(entries, bytes, guesses, g, k, last, c, post, r),
        r matches Err(e) && e !is LimitExceeded,
        0 <= g,
        0 <= k,
        i < guesses.len(),
        0 <= j < entries.len(),
        g < i || g == i && k <= j,
        entries[j].converter.takes(stream_info::spec_probe(bytes), guesses[i]),
    ensures
        fails_on(entries[j].converter, bytes, guesses[i]),
    decreases guesses.len() - g, entries.len() - k,
{
    if k >= entries.len() {
        lemma_all_failed(entries, bytes, guesses, g + 1, 0, last, c, post, r, i, j);
    } else if !entries[k].converter.takes(stream_info::spec_probe(bytes), guesses[g]) {
        lemma_all_failed(entries, bytes, guesses, g, k + 1, last, c, post, r, i, j);
    } else {
        let (mid, out) = choose|mid: CxV, out: Result<DocumentV, ErrorV>|
            c.grows_to(mid) && #[trigger] entries[k].converter.converts(
                bytes,
                guesses[g],
                c,
                mid,
                out,
            ) && (match out {
                Ok(d) => post == mid && r == Ok::<Attempt, ErrorV>(
                    (d, entries[k].converter.named(), g),
                ),
                Err(f) => if registry::is_limit(out) {
                    post == mid && r == Err::<Attempt, ErrorV>(f)
                } else {
                    attempts_from(entries, bytes, guesses, g, k + 1, Some(f), mid, post, r)
                },
            });
        let f = out->Err_0;
        assert(out == Err::<DocumentV, ErrorV>(f));
        if g == i && k == j {
            assert(entries[j].converter.converts(
                bytes,
                guesses[i],
                c,
                mid,
                Err::<DocumentV, ErrorV>(f),
            ));
        } else {
            lemma_all_failed(entries, bytes, guesses, g, k + 1, Some(f), mid, post, r, i, j);
        }
    }
}

/// One failure is not final: unless a limit is hit, an input is refused only
/// after every converter that accepts one of the guesses has failed on it.
pub proof fn one_failure_is_not_final<C: Converter>(
    entries: Seq<Entry<C>>,
    bytes: Seq<u8>,
    info: StreamInfoV,
    pre: CxV,
    post: CxV,
    r: Result<Made, ErrorV>,
    i: int,
    j: int,
)
    requires
        converts_to(entries, bytes, info, pre, post, r),
        r matches Err(e) && e !is LimitExceeded,
        0 <= i < detect::spec_detect(bytes, info).guesses.len(),
        0 <= j < entries.len(),
        entries[j].converter.takes(
            stream_info::spec_probe(bytes),
            detect::spec_detect(bytes, info).guesses[i],
        ),
    ensures
        fails_on(entries[j].converter, bytes, detect::spec_detect(bytes, info).guesses[i]),
{
    let d = detect::spec_detect(bytes, info);
    let raw = choose|raw: Result<Attempt, ErrorV>|
        r == #[trigger] with_note(raw, d) && attempts_from(
            entries,
            bytes,
            d.guesses,
            0,
            0,
            None,
            pre,
            post,
            raw,
        );
    lemma_all_failed(entries, bytes, d.guesses, 0, 0, None, pre, post, raw, i, j);
}

} // verus!

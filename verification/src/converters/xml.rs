//! XML, and the feeds written in it.

use quick_xml::events::BytesStart;
use quick_xml::reader::Reader;
use vstd::prelude::*;
use crate::bytes;
use crate::chars;
use crate::converters;
use crate::converters::{decode_info, squeeze};
use crate::cx::{ConvertCx, CxV};
use crate::error::{ConvertError, ErrorV};
use crate::ir;
use crate::ir::{Block, BlockV, Document, DocumentV, Inline, Span, SpanV};
use crate::registry;
use crate::registry::{Converter, PRIORITY_SPECIFIC};
use crate::stream_info::{Probe, ProbeV, StreamInfo, StreamInfoV};
use crate::text;

verus! {

/// `quick_xml::Reader`, carried through as an opaque value; what it reads and
/// how far it has got are [`xml_source`] and [`xml_position`].
#[verifier::external_type_specification]
#[verifier::external_body]
#[verifier::reject_recursive_types(R)]
pub struct ExReader<R>(quick_xml::reader::Reader<R>);

/// `quick_xml::events::BytesStart`, carried through as an opaque value; what it
/// holds is [`tag_parts`].
#[verifier::external_type_specification]
#[verifier::external_body]
pub struct ExBytesStart<'a>(BytesStart<'a>);

/// A tag's name and its attributes.
pub uninterp spec fn tag_parts(tag: BytesStart<'static>) -> (Seq<u8>, Seq<RawAttrV>);

/// One raw attribute: its name's bytes and its value; nothing where the
/// attribute is malformed, no value where the value is.
pub type RawAttr = Option<(Vec<u8>, Option<String>)>;

/// An XML event.
pub enum XmlEvent {
    /// An opening tag.
    Start(BytesStart<'static>),
    /// A self-closing tag.
    Empty(BytesStart<'static>),
    Text(Option<String>),
    CData(Vec<u8>),
    /// A closing tag.
    End,
    /// Declarations, comments, processing instructions, document types and
    /// entity references.
    Other,
    /// Nothing is left.
    Eof,
}

pub type RawAttrV = Option<(Seq<u8>, Option<Seq<char>>)>;

/// What an event says about the elements of a text.
pub enum Event {
    /// An element opens: its name and attributes.
    Open(Vec<u8>, Vec<RawAttr>),
    /// An element without content.
    Lone(Vec<u8>, Vec<RawAttr>),
    /// Text, where it could be decoded.
    Text(Option<String>),
    /// Text that is taken byte for byte.
    CData(Vec<u8>),
    /// The innermost open element closes.
    Close,
    /// Nothing.
    Other,
}

/// The value of an event.
#[verifier::ext_equal]
pub enum EventV {
    Start(Seq<u8>, Seq<RawAttrV>),
    Empty(Seq<u8>, Seq<RawAttrV>),
    Text(Option<Seq<char>>),
    CData(Seq<u8>),
    End,
    Other,
}

pub open spec fn raw_attr_view(a: RawAttr) -> RawAttrV {
    match a {
        Some(p) => Some((p.0@, chars::opt(p.1))),
        None => None,
    }
}

pub open spec fn raw_attrs_view(s: Seq<RawAttr>) -> Seq<RawAttrV> {
    Seq::new(s.len(), |i: int| raw_attr_view(s[i]))
}

impl View for XmlEvent {
    type V = EventV;

    open spec fn view(&self) -> EventV {
        match self {
            XmlEvent::Start(t) => EventV::Start(tag_parts(*t).0, tag_parts(*t).1),
            XmlEvent::Empty(t) => EventV::Empty(tag_parts(*t).0, tag_parts(*t).1),
            XmlEvent::Text(t) => EventV::Text(chars::opt(*t)),
            XmlEvent::CData(b) => EventV::CData(b@),
            XmlEvent::End => EventV::End,
            XmlEvent::Other => EventV::Other,
            XmlEvent::Eof => EventV::Other,
        }
    }
}

impl View for Event {
    type V = EventV;

    open spec fn view(&self) -> EventV {
        match self {
            Event::Open(n, a) => EventV::Start(n@, raw_attrs_view(a@)),
            Event::Lone(n, a) => EventV::Empty(n@, raw_attrs_view(a@)),
            Event::Text(t) => EventV::Text(chars::opt(*t)),
            Event::CData(b) => EventV::CData(b@),
            Event::Close => EventV::End,
            Event::Other => EventV::Other,
        }
    }
}

/// The text that a reader was opened on.
pub uninterp spec fn xml_source(r: Reader<&[u8]>) -> Seq<char>;

/// How many answers a reader has given, its end or fault among them.
pub uninterp spec fn xml_position(r: Reader<&[u8]>) -> nat;

/// The events of a text up to its end or to the first fault, and that fault's
/// message.
pub uninterp spec fn xml_stream(source: Seq<char>) -> (Seq<EventV>, Option<Seq<char>>);

/// `Reader::from_str`, with closing tags unchecked and text untrimmed: a
/// reader at the start of the text.
#[verifier::external_body]
fn open_xml(source: &str) -> (r: Reader<&[u8]>)
    ensures
        xml_source(r) == source@,
        xml_position(r) == 0,
{
    let mut reader = Reader::from_str(source);
    reader.config_mut().check_end_names = false;
    reader.config_mut().trim_text(false);
    reader
}

/// `Reader::read_event`: hands out the events of the text one by one, then its
/// end or its first fault. Which events those are depends on the text alone.
/// What a call after the end or the fault gives is left open.
#[verifier::external_body]
fn next_event(reader: &mut Reader<&[u8]>) -> (r: Result<XmlEvent, String>)
    ensures
        xml_source(*final(reader)) == xml_source(*old(reader)),
        ({
            let s = xml_stream(xml_source(*old(reader)));
            let k = xml_position(*old(reader));
            if k < s.0.len() {
                &&& r matches Ok(e) && e !is Eof && e@ == s.0[k as int]
                &&& xml_position(*final(reader)) == k + 1
            } else if k == s.0.len() {
                &&& match s.1 {
                    Some(m) => r matches Err(e) && e@ == m,
                    None => r matches Ok(e) && e is Eof,
                }
                &&& xml_position(*final(reader)) == k + 1
            } else {
                xml_position(*final(reader)) == k + 1
            }
        }),
{
    Ok(match reader.read_event().map_err(|e| e.to_string())? {
        quick_xml::events::Event::Start(e) => XmlEvent::Start(e.into_owned()),
        quick_xml::events::Event::Empty(e) => XmlEvent::Empty(e.into_owned()),
        quick_xml::events::Event::Text(t) => XmlEvent::Text(t.decode().ok().map(String::from)),
        quick_xml::events::Event::CData(t) => XmlEvent::CData(t.to_vec()),
        quick_xml::events::Event::End(_) => XmlEvent::End,
        quick_xml::events::Event::Eof => XmlEvent::Eof,
        _ => XmlEvent::Other,
    })
}

/// `BytesStart::name` and `BytesStart::attributes`: the tag's name and its
/// attributes, in the tag's order.
#[verifier::external_body]
fn parts_of(tag: &BytesStart<'static>) -> (r: (Vec<u8>, Vec<RawAttr>))
    ensures
        (r.0@, raw_attrs_view(r.1@)) == tag_parts(*tag),
{
    let attrs = tag.attributes().map(|a| a.ok().map(|a| (
        a.key.0.to_vec(),
        a.unescape_value().ok().map(String::from),
    )));
    (tag.name().0.to_vec(), attrs.collect())
}

/// An element, as it is seen when it closes.
#[derive(Debug, Clone)]
pub struct Node {
    /// The names of the element and its ancestors, outermost first.
    pub path: Vec<String>,
    /// The text directly inside the element.
    pub own_text: String,
    /// The text inside the element and its descendants.
    pub text: String,
    pub attrs: Vec<(String, String)>,
}

/// The value of a [`Node`].
#[verifier::ext_equal]
pub struct NodeV {
    pub path: Seq<Seq<char>>,
    pub own_text: Seq<char>,
    pub text: Seq<char>,
    pub attrs: Seq<(Seq<char>, Seq<char>)>,
}

impl View for Node {
    type V = NodeV;

    open spec fn view(&self) -> NodeV {
        NodeV {
            path: chars::texts(self.path@),
            own_text: self.own_text@,
            text: self.text@,
            attrs: ir::pairs_view(self.attrs@),
        }
    }
}

pub open spec fn nodes_view(s: Seq<Node>) -> Seq<NodeV> {
    Seq::new(s.len(), |i: int| s[i]@)
}

impl NodeV {
    pub open spec fn name(self) -> Seq<char> {
        if self.path.len() > 0 {
            self.path.last()
        } else {
            seq![]
        }
    }

    pub open spec fn under(self, name: Seq<char>) -> bool {
        self.path.contains(name)
    }

    pub open spec fn attr(self, key: Seq<char>) -> Option<Seq<char>> {
        ir::lookup(self.attrs, key)
    }

    pub open spec fn with_text(self, t: Seq<char>) -> NodeV {
        NodeV { own_text: self.own_text + t, text: self.text + t, ..self }
    }
}

impl Default for Node {
    fn default() -> (r: Self)
        ensures
            r@ == (NodeV { path: seq![], own_text: seq![], text: seq![], attrs: seq![] }),
    {
        let r = Node {
            path: Vec::new(),
            own_text: String::new(),
            text: String::new(),
            attrs: Vec::new(),
        };
        assert(r@ =~= (NodeV { path: seq![], own_text: seq![], text: seq![], attrs: seq![] }));
        r
    }
}

impl Node {
    /// The element's local name, in lower case.
    #[must_use]
    pub fn name(&self) -> (r: &str)
        ensures
            r@ == self@.name(),
    {
        if self.path.len() > 0 {
            self.path[self.path.len() - 1].as_str()
        } else {
            proof {
                reveal_strlit("");
                assert(""@ =~= seq![]);
            }
            ""
        }
    }

    /// How deeply the element is nested.
    #[must_use]
    pub fn depth(&self) -> (r: usize)
        ensures
            r == self@.path.len(),
    {
        self.path.len()
    }

    /// The element or one of its ancestors has this name.
    #[must_use]
    pub fn under(&self, name: &str) -> (r: bool)
        ensures
            r == self@.under(name@),
    {
        let ghost v = self@.path;
        let mut i: usize = 0;
        while i < self.path.len()
            invariant
                i <= self.path@.len(),
                v == chars::texts(self.path@),
                forall|k: int| 0 <= k < i ==> v[k] != name@,
            decreases self.path@.len() - i,
        {
            if text::eq(&self.path[i], name) {
                assert(v[i as int] == name@);
                return true;
            }
            i += 1;
        }
        false
    }

    /// The value of an attribute.
    pub(crate) fn attr(&self, key: &str) -> (r: Option<String>)
        ensures
            chars::opt(r) == self@.attr(key@),
    {
        find_pair(&self.attrs, key)
    }
}

/// The value of the first pair with this key.
pub(crate) fn find_pair(pairs: &Vec<(String, String)>, key: &str) -> (r: Option<String>)
    ensures
        chars::opt(r) == ir::lookup(ir::pairs_view(pairs@), key@),
{
    let ghost v = ir::pairs_view(pairs@);
    let mut i: usize = 0;
    assert(v.skip(0) =~= v);
    while i < pairs.len()
        invariant
            i <= pairs@.len(),
            v == ir::pairs_view(pairs@),
            ir::lookup(v, key@) == ir::lookup(v.skip(i as int), key@),
        decreases pairs@.len() - i,
    {
        if text::eq(&pairs[i].0, key) {
            return Some(pairs[i].1.clone());
        }
        assert(v.skip(i as int).skip(1) =~= v.skip(i + 1));
        i += 1;
    }
    None
}

/// What follows the last colon.
pub open spec fn after_colon(s: Seq<char>) -> Seq<char> {
    match chars::rfind(s, ":"@) {
        Some(i) => s.skip(i + ":"@.len()),
        None => s,
    }
}

/// A name without its namespace prefix, in lower case.
pub open spec fn spec_local_name(raw: Seq<u8>) -> Seq<char> {
    chars::lower(after_colon(bytes::lossy(raw)))
}

/// The well-formed attributes, under their local names.
pub open spec fn spec_attributes(raw: Seq<RawAttrV>) -> Seq<(Seq<char>, Seq<char>)>
    decreases raw.len(),
{
    if raw.len() == 0 {
        seq![]
    } else {
        let t = spec_attributes(raw.drop_last());
        match raw.last() {
            Some(p) => t.push(
                (
                    spec_local_name(p.0),
                    match p.1 {
                        Some(v) => v,
                        None => seq![],
                    },
                ),
            ),
            None => t,
        }
    }
}

/// How far a reading has got: the open elements, and the closed ones in the
/// order in which they closed.
#[verifier::ext_equal]
pub struct Progress {
    pub stack: Seq<NodeV>,
    pub nodes: Seq<NodeV>,
}

/// A freshly opened element under the open ones.
pub open spec fn opened(stack: Seq<NodeV>, name: Seq<u8>, attrs: Seq<RawAttrV>) -> NodeV {
    NodeV {
        path: (if stack.len() > 0 {
            stack.last().path
        } else {
            seq![]
        }).push(spec_local_name(name)),
        own_text: seq![],
        text: seq![],
        attrs: spec_attributes(attrs),
    }
}

/// Text goes to the innermost open element, if there is one.
pub open spec fn add_text(p: Progress, t: Seq<char>) -> Progress {
    if p.stack.len() > 0 {
        Progress { stack: p.stack.drop_last().push(p.stack.last().with_text(t)), ..p }
    } else {
        p
    }
}

/// The innermost open element closes: its text joins its parent's.
pub open spec fn close(p: Progress) -> Progress {
    if p.stack.len() == 0 {
        p
    } else {
        let node = p.stack.last();
        let rest = p.stack.drop_last();
        Progress {
            stack: if rest.len() > 0 && !chars::is_blank(node.text) {
                rest.drop_last().push(
                    NodeV { text: rest.last().text + " "@ + node.text, ..rest.last() },
                )
            } else {
                rest
            },
            nodes: p.nodes.push(node),
        }
    }
}

pub open spec fn step(p: Progress, e: EventV) -> Progress {
    match e {
        EventV::Start(n, a) => Progress { stack: p.stack.push(opened(p.stack, n, a)), ..p },
        EventV::Empty(n, a) => Progress { nodes: p.nodes.push(opened(p.stack, n, a)), ..p },
        EventV::Text(t) => add_text(
            p,
            match t {
                Some(t) => t,
                None => seq![],
            },
        ),
        EventV::CData(b) => add_text(p, bytes::lossy(b)),
        EventV::End => close(p),
        EventV::Other => p,
    }
}

pub open spec fn run(events: Seq<EventV>) -> Progress
    decreases events.len(),
{
    if events.len() == 0 {
        Progress { stack: seq![], nodes: seq![] }
    } else {
        step(run(events.drop_last()), events.last())
    }
}

/// The elements of a text in the order in which they close.
pub open spec fn spec_nodes(source: Seq<char>) -> Seq<NodeV> {
    run(xml_stream(source).0).nodes
}

/// What reading a text ends with.
pub open spec fn spec_fault(source: Seq<char>, format: Seq<char>) -> Option<ErrorV> {
    match xml_stream(source).1 {
        Some(m) => Some(ErrorV::Malformed { format, message: m }),
        None => None,
    }
}

/// The events that say anything about elements.
pub open spec fn substantive(events: Seq<EventV>) -> Seq<EventV>
    decreases events.len(),
{
    if events.len() == 0 {
        seq![]
    } else {
        let t = substantive(events.drop_last());
        if events.last() is Other {
            t
        } else {
            t.push(events.last())
        }
    }
}

/// Document types, entity references, comments and processing instructions
/// have no effect: the elements are those of the events without them.
pub proof fn declarations_have_no_effect(events: Seq<EventV>)
    ensures
        run(events) == run(substantive(events)),
    decreases events.len(),
{
    if events.len() > 0 {
        declarations_have_no_effect(events.drop_last());
        let t = substantive(events.drop_last());
        if !(events.last() is Other) {
            assert(t.push(events.last()).drop_last() =~= t);
        }
    }
}

fn local_name(raw: &Vec<u8>) -> (r: String)
    ensures
        r@ == spec_local_name(raw@),
{
    let s = bytes::from_utf8_lossy(raw.as_slice());
    let t = match text::rfind(&s, ":") {
        Some(i) => {
            proof {
                reveal_strlit(":");
            }
            let v = text::to_chars(&s);
            assert(i < v.len());
            assert(v@.subrange(i + 1, v@.len() as int) =~= v@.skip(i + 1));
            text::slice(&v, i + 1, v.len())
        },
        None => s,
    };
    text::lower(&t)
}

fn attributes(raw: &Vec<RawAttr>) -> (r: Vec<(String, String)>)
    ensures
        ir::pairs_view(r@) == spec_attributes(raw_attrs_view(raw@)),
{
    let ghost v = raw_attrs_view(raw@);
    let mut out: Vec<(String, String)> = Vec::new();
    let mut i: usize = 0;
    assert(ir::pairs_view(out@) =~= seq![]);
    while i < raw.len()
        invariant
            i <= raw@.len(),
            v == raw_attrs_view(raw@),
            ir::pairs_view(out@) == spec_attributes(v.take(i as int)),
        decreases raw@.len() - i,
    {
        assert(v.take(i + 1).drop_last() =~= v.take(i as int));
        assert(v.take(i + 1).last() == raw_attr_view(raw@[i as int]));
        if let Some(p) = &raw[i] {
            let name = local_name(&p.0);
            let value = match &p.1 {
                Some(x) => x.clone(),
                None => String::new(),
            };
            let ghost before = out@;
            let pair = (name, value);
            out.push(pair);
            assert(ir::pairs_view(out@) =~= ir::pairs_view(before).push((pair.0@, pair.1@)));
        }
        i += 1;
    }
    assert(v.take(v.len() as int) =~= v);
    out
}

fn clone_texts(v: &Vec<String>) -> (r: Vec<String>)
    ensures
        chars::texts(r@) == chars::texts(v@),
{
    let mut out: Vec<String> = Vec::new();
    let mut i: usize = 0;
    while i < v.len()
        invariant
            i <= v@.len(),
            out@.len() == i,
            forall|k: int| 0 <= k < i ==> (#[trigger] out@[k])@ == v@[k]@,
        decreases v@.len() - i,
    {
        out.push(v[i].clone());
        i += 1;
    }
    assert(chars::texts(out@) =~= chars::texts(v@));
    out
}

fn open_node(stack: &Vec<Node>, name: &Vec<u8>, attrs: &Vec<RawAttr>) -> (r: Node)
    ensures
        r@ == opened(nodes_view(stack@), name@, raw_attrs_view(attrs@)),
{
    let mut path: Vec<String> = if stack.len() > 0 {
        clone_texts(&stack[stack.len() - 1].path)
    } else {
        Vec::new()
    };
    let ghost before = path@;
    let n = local_name(name);
    path.push(n);
    proof {
        chars::lemma_texts_push(before, n);
        if stack@.len() == 0 {
            assert(chars::texts(before) =~= seq![]);
        }
    }
    Node { path, own_text: String::new(), text: String::new(), attrs: attributes(attrs) }
}

fn push_node(v: &mut Vec<Node>, n: Node)
    ensures
        nodes_view(final(v)@) == nodes_view(old(v)@).push(n@),
        final(v)@.len() == old(v)@.len() + 1,
{
    let ghost before = v@;
    v.push(n);
    assert(nodes_view(v@) =~= nodes_view(before).push(n@));
}

fn add_to_top(stack: &mut Vec<Node>, t: &str)
    ensures
        nodes_view(final(stack)@) == add_text(
            Progress { stack: nodes_view(old(stack)@), nodes: seq![] },
            t@,
        ).stack,
{
    let ghost before = stack@;
    if let Some(top) = stack.pop() {
        let mut top = top;
        top.own_text.append(t);
        top.text.append(t);
        assert(nodes_view(stack@) =~= nodes_view(before).drop_last());
        push_node(stack, top);
    }
}

fn close_top(stack: &mut Vec<Node>, nodes: &mut Vec<Node>)
    ensures
        nodes_view(final(stack)@) == close(
            Progress { stack: nodes_view(old(stack)@), nodes: seq![] },
        ).stack,
        nodes_view(final(nodes)@) == nodes_view(old(nodes)@) + close(
            Progress { stack: nodes_view(old(stack)@), nodes: seq![] },
        ).nodes,
{
    let ghost s0 = stack@;
    let ghost n0 = nodes@;
    if let Some(node) = stack.pop() {
        assert(nodes_view(stack@) =~= nodes_view(s0).drop_last());
        if !text::is_blank(&node.text) {
            let ghost s1 = stack@;
            if let Some(parent) = stack.pop() {
                let mut parent = parent;
                parent.text.append(" ");
                parent.text.append(node.text.as_str());
                assert(nodes_view(stack@) =~= nodes_view(s1).drop_last());
                push_node(stack, parent);
            }
        }
        push_node(nodes, node);
        assert(nodes_view(nodes@) =~= nodes_view(n0) + seq![].push(node@));
    } else {
        assert(nodes_view(nodes@) =~= nodes_view(n0) + seq![]);
    }
}

/// An event in plain values.
fn plain_event(e: XmlEvent) -> (r: Event)
    ensures
        r@ == e@,
{
    match e {
        XmlEvent::Start(t) => {
            let parts = parts_of(&t);
            Event::Open(parts.0, parts.1)
        },
        XmlEvent::Empty(t) => {
            let parts = parts_of(&t);
            Event::Lone(parts.0, parts.1)
        },
        XmlEvent::Text(t) => Event::Text(t),
        XmlEvent::CData(b) => Event::CData(b),
        XmlEvent::End => Event::Close,
        XmlEvent::Other => Event::Other,
        XmlEvent::Eof => Event::Other,
    }
}

/// Takes one event: `stack` holds the open elements, `nodes` the closed ones in
/// the order in which they closed.
pub fn take_event(stack: &mut Vec<Node>, nodes: &mut Vec<Node>, e: Event)
    ensures
        ({
            let p = Progress { stack: nodes_view(old(stack)@), nodes: nodes_view(old(nodes)@) };
            &&& nodes_view(final(stack)@) == step(p, e@).stack
            &&& nodes_view(final(nodes)@) == step(p, e@).nodes
        }),
{
    let ghost p = Progress { stack: nodes_view(stack@), nodes: nodes_view(nodes@) };
    match e {
        Event::Open(name, attrs) => {
            let n = open_node(stack, &name, &attrs);
            push_node(stack, n);
        },
        Event::Lone(name, attrs) => {
            let n = open_node(stack, &name, &attrs);
            push_node(nodes, n);
        },
        Event::Text(t) => {
            let t = match t {
                Some(t) => t,
                None => String::new(),
            };
            add_to_top(stack, &t);
        },
        Event::CData(b) => {
            let t = bytes::from_utf8_lossy(b.as_slice());
            add_to_top(stack, &t);
        },
        Event::Close => {
            close_top(stack, nodes);
            assert(nodes_view(nodes@) =~= close(p).nodes);
        },
        Event::Other => {},
    }
}

/// What is appended to the closed elements does not depend on those that are
/// there already.
proof fn lemma_step_appends(p: Progress, before: Seq<NodeV>, e: EventV)
    ensures
        step(Progress { nodes: before + p.nodes, ..p }, e).stack == step(p, e).stack,
        step(Progress { nodes: before + p.nodes, ..p }, e).nodes == before + step(p, e).nodes,
{
    let q = step(p, e);
    let r = step(Progress { nodes: before + p.nodes, ..p }, e);
    assert(r.nodes =~= before + q.nodes);
}

/// Reads the elements of a text and adds them, in the order in which they
/// close, to `nodes`. Those before a fault are added too.
pub fn read_events(source: &str, format: &'static str, nodes: &mut Vec<Node>) -> (r: Result<
    (),
    ConvertError,
>)
    ensures
        nodes_view(final(nodes)@) == nodes_view(old(nodes)@) + spec_nodes(source@),
        r is Ok <==> spec_fault(source@, format@) is None,
        r matches Err(e) ==> spec_fault(source@, format@) == Some(e@),
{
    let ghost n0 = nodes_view(nodes@);
    let ghost events = xml_stream(source@).0;
    let mut reader = open_xml(source);
    let mut stack: Vec<Node> = Vec::new();
    let ghost mut k: int = 0;
    assert(nodes_view(stack@) =~= seq![]);
    assert(nodes_view(nodes@) =~= n0 + seq![]);
    loop
        invariant
            0 <= k <= events.len(),
            n0 == nodes_view(old(nodes)@),
            events == xml_stream(source@).0,
            xml_source(reader) == source@,
            xml_position(reader) == k,
            nodes_view(stack@) == run(events.take(k)).stack,
            nodes_view(nodes@) == n0 + run(events.take(k)).nodes,
        decreases events.len() - k,
    {
        let ghost p = run(events.take(k));
        match next_event(&mut reader) {
            Ok(e) => {
                if let XmlEvent::Eof = e {
                    assert(events.take(k) =~= events);
                    return Ok(());
                }
                proof {
                    assert(events.take(k + 1).drop_last() =~= events.take(k));
                    assert(events.take(k + 1).last() == e@);
                }
                proof {
                    lemma_step_appends(p, n0, e@);
                }
                let plain = plain_event(e);
                take_event(&mut stack, nodes, plain);
                proof {
                    k = k + 1;
                }
            },
            Err(m) => {
                assert(events.take(k) =~= events);
                return Err(ConvertError::Malformed { format, message: m });
            },
        }
    }
}

/// XML without a more specific converter.
pub struct XmlConverter;

pub open spec fn is_feed_like(info: StreamInfoV) -> bool {
    info.is_ext("rss"@) || info.is_ext("atom"@) || info.is_mime("application/rss+xml"@)
        || info.is_mime("application/atom+xml"@)
}

pub open spec fn xml_takes(probe: ProbeV, info: StreamInfoV) -> bool {
    &&& probe.looks_textual()
    &&& !is_feed_like(info)
    &&& (info.is_ext("xml"@) || info.is_mime("application/xml"@) || info.is_mime("text/xml"@) || (
    info.extension is None && chars::starts_with(probe.leading_text(64), "<?xml"@)))
}

/// `key=value` for each attribute.
pub open spec fn attr_texts(attrs: Seq<(Seq<char>, Seq<char>)>) -> Seq<Seq<char>> {
    Seq::new(attrs.len(), |i: int| attrs[i].0 + "="@ + attrs[i].1)
}

/// The paragraph that an element becomes, if it says anything.
pub open spec fn xml_block(n: NodeV) -> Option<BlockV> {
    let content = converters::spec_squeeze(n.own_text);
    let name = SpanV::Strong(seq![SpanV::Text(n.name())]);
    if content.len() > 0 {
        Some(BlockV::Paragraph(seq![name, SpanV::Text(": "@), SpanV::Text(content)]))
    } else if n.attrs.len() > 0 {
        Some(
            BlockV::Paragraph(
                seq![
                    name,
                    SpanV::Text(" ("@ + chars::join(attr_texts(n.attrs), ", "@) + ")"@),
                ],
            ),
        )
    } else {
        None
    }
}

pub open spec fn xml_blocks(nodes: Seq<NodeV>) -> Seq<BlockV>
    decreases nodes.len(),
{
    if nodes.len() == 0 {
        seq![]
    } else {
        let t = xml_blocks(nodes.drop_last());
        match xml_block(nodes.last()) {
            Some(b) => t.push(b),
            None => t,
        }
    }
}

/// The document of a text's elements.
pub open spec fn elements_shown(nodes: Seq<NodeV>) -> DocumentV {
    ir::empty_document().extended(xml_blocks(nodes))
}

pub open spec fn xml_document(source: Seq<char>) -> Result<DocumentV, ErrorV> {
    match spec_fault(source, "xml"@) {
        Some(e) => Err(e),
        None => Ok(elements_shown(spec_nodes(source))),
    }
}

fn attr_list(attrs: &Vec<(String, String)>) -> (r: String)
    ensures
        r@ == chars::join(attr_texts(ir::pairs_view(attrs@)), ", "@),
{
    let mut parts: Vec<String> = Vec::new();
    let mut i: usize = 0;
    while i < attrs.len()
        invariant
            i <= attrs@.len(),
            parts@.len() == i,
            forall|k: int|
                0 <= k < i ==> (#[trigger] parts@[k])@ == attrs@[k].0@ + "="@ + attrs@[k].1@,
        decreases attrs@.len() - i,
    {
        parts.push(text::cat3(&attrs[i].0, "=", &attrs[i].1));
        i += 1;
    }
    assert(chars::texts(parts@) =~= attr_texts(ir::pairs_view(attrs@)));
    text::join(&parts, ", ")
}

fn node_block(n: &Node) -> (r: Option<Block>)
    ensures
        r is Some == xml_block(n@) is Some,
        r matches Some(b) ==> xml_block(n@) == Some(b@),
{
    let content = squeeze(&n.own_text);
    if text::is_empty(&content) && n.attrs.len() == 0 {
        return None;
    }
    let mut i = Inline::of(Span::Strong(Inline::text(n.name())));
    if !text::is_empty(&content) {
        i.push(Span::Text(": ".to_owned()));
        i.push(Span::Text(content));
        assert(i@ =~= seq![
            SpanV::Strong(seq![SpanV::Text(n@.name())]),
            SpanV::Text(": "@),
            SpanV::Text(content@),
        ]);
    } else {
        let a = attr_list(&n.attrs);
        let t = text::cat3(" (", &a, ")");
        i.push(Span::Text(t));
        assert(i@ =~= seq![SpanV::Strong(seq![SpanV::Text(n@.name())]), SpanV::Text(t@)]);
    }
    Some(Block::Paragraph(i))
}

/// The document of a text's elements: a paragraph for each that says anything.
pub fn elements_document(nodes: &Vec<Node>) -> (r: Document)
    ensures
        r@ == elements_shown(nodes_view(nodes@)),
{
    let ghost v = nodes_view(nodes@);
    let mut doc = Document::new();
    let mut i: usize = 0;
    assert(doc@ =~= ir::empty_document().extended(xml_blocks(v.take(0))));
    while i < nodes.len()
        invariant
            i <= nodes@.len(),
            v == nodes_view(nodes@),
            doc@ == ir::empty_document().extended(xml_blocks(v.take(i as int))),
        decreases nodes@.len() - i,
    {
        assert(v.take(i + 1).drop_last() =~= v.take(i as int));
        if let Some(b) = node_block(&nodes[i]) {
            doc.push(b);
            assert(doc@.blocks =~= xml_blocks(v.take(i + 1)));
        }
        i += 1;
    }
    assert(v.take(v.len() as int) =~= v);
    doc
}

impl Converter for XmlConverter {
    open spec fn named(&self) -> Seq<char> {
        "xml"@
    }

    open spec fn ranked(&self) -> i32 {
        10
    }

    open spec fn takes(&self, probe: ProbeV, info: StreamInfoV) -> bool {
        xml_takes(probe, info)
    }

    open spec fn converts(
        &self,
        bytes: Seq<u8>,
        info: StreamInfoV,
        pre: CxV,
        post: CxV,
        r: Result<DocumentV, ErrorV>,
    ) -> bool {
        let s = converters::spec_decode_text(bytes, info.charset);
        post == pre && (registry::late(pre, r) && xml_document(s) is Ok || r == xml_document(s))
    }

    fn name(&self) -> (r: &'static str) {
        "xml"
    }

    fn priority(&self) -> (r: i32) {
        PRIORITY_SPECIFIC + 10
    }

    fn accepts(&self, probe: &Probe<'_>, info: &StreamInfo) -> (r: bool) {
        if !probe.looks_textual() || feed_like(info) {
            return false;
        }
        if info.is_ext("xml") || info.is_mime("application/xml") || info.is_mime("text/xml") {
            return true;
        }
        if info.extension.is_none() {
            let head = probe.leading_text(64);
            text::starts_with(&head, "<?xml")
        } else {
            false
        }
    }

    fn convert(&self, bytes: &[u8], info: &StreamInfo, cx: &mut ConvertCx<'_>) -> (r: Result<
        Document,
        ConvertError,
    >) {
        let s = decode_info(bytes, &info.charset);
        let mut nodes: Vec<Node> = Vec::new();
        assert(nodes_view(nodes@) =~= seq![]);
        let read = read_events(&s, "xml", &mut nodes);
        assert(nodes_view(nodes@) =~= spec_nodes(s@));
        if let Err(e) = read {
            return Err(e);
        }
        if let Err(e) = cx.budget().check_deadline() {
            return Err(e);
        }
        Ok(elements_document(&nodes))
    }
}

fn feed_like(info: &StreamInfo) -> (r: bool)
    ensures
        r == is_feed_like(info@),
{
    info.is_ext("rss") || info.is_ext("atom") || info.is_mime("application/rss+xml")
        || info.is_mime("application/atom+xml")
}

/// RSS and Atom.
pub struct FeedConverter;

pub open spec fn feed_takes(probe: ProbeV, info: StreamInfoV) -> bool {
    &&& probe.looks_textual()
    &&& is_feed_like(info) || ((info.is_ext("xml"@) || info.is_mime("application/xml"@)
        || info.is_mime("text/xml"@)) && (probe.contains(seq![0x3cu8, 0x72u8, 0x73u8, 0x73u8])
        || probe.contains(seq![0x3cu8, 0x66u8, 0x65u8, 0x65u8, 0x64u8]) || probe.contains(
        seq![0x3cu8, 0x63u8, 0x68u8, 0x61u8, 0x6eu8, 0x6eu8, 0x65u8, 0x6cu8],
    )))
}

/// One item of a feed.
struct Entry {
    title: String,
    link: String,
    summary: String,
    date: String,
}

/// The value of a feed item.
#[verifier::ext_equal]
pub struct EntryV {
    pub title: Seq<char>,
    pub link: Seq<char>,
    pub summary: Seq<char>,
    pub date: Seq<char>,
}

pub open spec fn no_entry() -> EntryV {
    EntryV { title: seq![], link: seq![], summary: seq![], date: seq![] }
}

impl EntryV {
    /// Nothing worth showing; a date alone is not.
    pub open spec fn is_empty(self) -> bool {
        self.title.len() == 0 && self.link.len() == 0 && self.summary.len() == 0
    }
}

impl View for Entry {
    type V = EntryV;

    closed spec fn view(&self) -> EntryV {
        EntryV {
            title: self.title@,
            link: self.link@,
            summary: self.summary@,
            date: self.date@,
        }
    }
}

/// How far the reading of a feed has got.
#[verifier::ext_equal]
pub struct FeedV {
    pub title: Option<Seq<char>>,
    pub entries: Seq<EntryV>,
    pub current: EntryV,
}

pub open spec fn first(old_value: Seq<char>, new_value: Seq<char>) -> Seq<char> {
    if old_value.len() == 0 {
        new_value
    } else {
        old_value
    }
}

pub open spec fn in_entry(n: NodeV) -> bool {
    n.under("item"@) || n.under("entry"@)
}

/// What a closed element adds to a feed.
pub open spec fn feed_step(f: FeedV, n: NodeV) -> FeedV {
    let name = n.name();
    let content = converters::spec_squeeze(n.text);
    if name == "item"@ || name == "entry"@ {
        if f.current.is_empty() {
            f
        } else {
            FeedV { entries: f.entries.push(f.current), current: no_entry(), ..f }
        }
    } else if name == "title"@ {
        if in_entry(n) {
            FeedV { current: EntryV { title: first(f.current.title, content), ..f.current }, ..f }
        } else if f.title is None {
            FeedV { title: Some(content), ..f }
        } else {
            f
        }
    } else if name == "link"@ {
        let href = match n.attr("href"@) {
            Some(h) => h,
            None => content,
        };
        if in_entry(n) {
            FeedV { current: EntryV { link: first(f.current.link, href), ..f.current }, ..f }
        } else {
            f
        }
    } else if name == "description"@ || name == "summary"@ || name == "content"@ {
        if in_entry(n) {
            FeedV {
                current: EntryV { summary: first(f.current.summary, content), ..f.current },
                ..f
            }
        } else {
            f
        }
    } else if name == "pubdate"@ || name == "published"@ || name == "updated"@ {
        if in_entry(n) {
            FeedV { current: EntryV { date: first(f.current.date, content), ..f.current }, ..f }
        } else {
            f
        }
    } else {
        f
    }
}

pub open spec fn feed_run(nodes: Seq<NodeV>) -> FeedV
    decreases nodes.len(),
{
    if nodes.len() == 0 {
        FeedV { title: None, entries: seq![], current: no_entry() }
    } else {
        feed_step(feed_run(nodes.drop_last()), nodes.last())
    }
}

/// The items of a feed, one that was left open included.
pub open spec fn feed_entries(f: FeedV) -> Seq<EntryV> {
    if f.current.is_empty() {
        f.entries
    } else {
        f.entries.push(f.current)
    }
}

pub open spec fn opt_block(show: bool, b: BlockV) -> Seq<BlockV> {
    if show {
        seq![b]
    } else {
        seq![]
    }
}

pub open spec fn entry_blocks(e: EntryV) -> Seq<BlockV> {
    opt_block(
        e.title.len() > 0,
        BlockV::Heading { level: 2, text: seq![SpanV::Text(e.title)] },
    ) + opt_block(
        e.link.len() > 0,
        BlockV::Paragraph(
            seq![SpanV::Link { text: seq![SpanV::Text(e.link)], href: e.link }],
        ),
    ) + opt_block(
        e.date.len() > 0,
        BlockV::Paragraph(seq![SpanV::Emphasis(seq![SpanV::Text(e.date)])]),
    ) + opt_block(e.summary.len() > 0, BlockV::Paragraph(seq![SpanV::Text(e.summary)]))
}

pub open spec fn entries_blocks(es: Seq<EntryV>) -> Seq<BlockV>
    decreases es.len(),
{
    if es.len() == 0 {
        seq![]
    } else {
        entries_blocks(es.drop_last()) + entry_blocks(es.last())
    }
}

/// The document of a feed's elements.
pub open spec fn feed_shown(nodes: Seq<NodeV>) -> DocumentV {
    let f = feed_run(nodes);
    let d = match f.title {
        Some(t) => ir::empty_document().titled(t),
        None => ir::empty_document(),
    };
    d.extended(entries_blocks(feed_entries(f)))
}

pub open spec fn feed_document(source: Seq<char>) -> Result<DocumentV, ErrorV> {
    match spec_fault(source, "feed"@) {
        Some(e) => Err(e),
        None => Ok(feed_shown(spec_nodes(source))),
    }
}

spec fn entries_view(s: Seq<Entry>) -> Seq<EntryV> {
    Seq::new(s.len(), |i: int| s[i]@)
}

struct Feed {
    title: Option<String>,
    entries: Vec<Entry>,
    current: Entry,
}

impl View for Feed {
    type V = FeedV;

    closed spec fn view(&self) -> FeedV {
        FeedV {
            title: chars::opt(self.title),
            entries: entries_view(self.entries@),
            current: self.current@,
        }
    }
}

impl Entry {
    fn blank() -> (r: Self)
        ensures
            r@ == no_entry(),
    {
        let r = Entry {
            title: String::new(),
            link: String::new(),
            summary: String::new(),
            date: String::new(),
        };
        assert(r@ =~= no_entry());
        r
    }

    fn is_empty(&self) -> (r: bool)
        ensures
            r == self@.is_empty(),
    {
        text::is_empty(&self.title) && text::is_empty(&self.link) && text::is_empty(&self.summary)
    }
}

impl Feed {
    fn flush(&mut self)
        ensures
            final(self)@ == (if old(self)@.current.is_empty() {
                old(self)@
            } else {
                FeedV {
                    entries: old(self)@.entries.push(old(self)@.current),
                    current: no_entry(),
                    ..old(self)@
                }
            }),
    {
        if !self.current.is_empty() {
            let ghost before = self.entries@;
            let mut done = Entry::blank();
            std::mem::swap(&mut done, &mut self.current);
            self.entries.push(done);
            assert(entries_view(self.entries@) =~= entries_view(before).push(done@));
        }
    }

    fn visit(&mut self, n: &Node)
        ensures
            final(self)@ == feed_step(old(self)@, n@),
    {
        let name = n.name();
        let content = squeeze(&n.text);
        let inside: bool = n.under("item") || n.under("entry");
        if text::eq(name, "item") || text::eq(name, "entry") {
            self.flush();
        } else if text::eq(name, "title") {
            if inside {
                if text::is_empty(&self.current.title) {
                    self.current.title = content;
                }
            } else if self.title.is_none() {
                self.title = Some(content);
            }
        } else if text::eq(name, "link") {
            let href = match n.attr("href") {
                Some(h) => h,
                None => content,
            };
            if inside && text::is_empty(&self.current.link) {
                self.current.link = href;
            }
        } else if text::eq(name, "description") || text::eq(name, "summary") || text::eq(
            name,
            "content",
        ) {
            if inside && text::is_empty(&self.current.summary) {
                self.current.summary = content;
            }
        } else if text::eq(name, "pubdate") || text::eq(name, "published") || text::eq(
            name,
            "updated",
        ) {
            if inside && text::is_empty(&self.current.date) {
                self.current.date = content;
            }
        }
    }
}

fn push_entry(doc: &mut Document, e: &Entry)
    ensures
        final(doc)@ == old(doc)@.extended(entry_blocks(e@)),
{
    let ghost b0 = doc@.blocks;
    if !text::is_empty(&e.title) {
        doc.push(Block::Heading { level: 2, text: Inline::text(e.title.clone()) });
    }
    if !text::is_empty(&e.link) {
        doc.push(
            Block::Paragraph(
                Inline::of(
                    Span::Link { text: Inline::text(e.link.clone()), href: e.link.clone() },
                ),
            ),
        );
    }
    if !text::is_empty(&e.date) {
        doc.push(Block::Paragraph(Inline::of(Span::Emphasis(Inline::text(e.date.clone())))));
    }
    if !text::is_empty(&e.summary) {
        doc.push(Block::Paragraph(Inline::text(e.summary.clone())));
    }
    assert(doc@.blocks =~= b0 + entry_blocks(e@));
}

/// The document of a feed's elements: its title, then its items.
pub fn feed_from(nodes: &Vec<Node>) -> (r: Document)
    ensures
        r@ == feed_shown(nodes_view(nodes@)),
{
    let ghost v = nodes_view(nodes@);
    let mut feed = Feed { title: None, entries: Vec::new(), current: Entry::blank() };
    assert(feed@ =~= feed_run(v.take(0)));
    let mut i: usize = 0;
    while i < nodes.len()
        invariant
            i <= nodes@.len(),
            v == nodes_view(nodes@),
            feed@ == feed_run(v.take(i as int)),
        decreases nodes@.len() - i,
    {
        assert(v.take(i + 1).drop_last() =~= v.take(i as int));
        feed.visit(&nodes[i]);
        i += 1;
    }
    assert(v.take(v.len() as int) =~= v);
    let ghost f = feed@;
    feed.flush();
    let mut doc = Document::new();
    if let Some(t) = feed.title {
        doc = doc.with_title(t);
    }
    let ghost d0 = doc@;
    let entries = feed.entries;
    let ghost es = entries_view(entries@);
    assert(es == feed_entries(f));
    let mut k: usize = 0;
    assert(doc@ =~= d0.extended(entries_blocks(es.take(0))));
    while k < entries.len()
        invariant
            k <= entries@.len(),
            es == entries_view(entries@),
            doc@ == d0.extended(entries_blocks(es.take(k as int))),
        decreases entries@.len() - k,
    {
        assert(es.take(k + 1).drop_last() =~= es.take(k as int));
        push_entry(&mut doc, &entries[k]);
        k += 1;
        assert(doc@.blocks =~= d0.blocks + entries_blocks(es.take(k as int)));
    }
    assert(es.take(es.len() as int) =~= es);
    doc
}

impl Converter for FeedConverter {
    open spec fn named(&self) -> Seq<char> {
        "feed"@
    }

    open spec fn ranked(&self) -> i32 {
        0
    }

    open spec fn takes(&self, probe: ProbeV, info: StreamInfoV) -> bool {
        feed_takes(probe, info)
    }

    open spec fn converts(
        &self,
        bytes: Seq<u8>,
        info: StreamInfoV,
        pre: CxV,
        post: CxV,
        r: Result<DocumentV, ErrorV>,
    ) -> bool {
        let s = converters::spec_decode_text(bytes, info.charset);
        post == pre && (registry::late(pre, r) && feed_document(s) is Ok || r == feed_document(s))
    }

    fn name(&self) -> (r: &'static str) {
        "feed"
    }

    fn priority(&self) -> (r: i32) {
        PRIORITY_SPECIFIC
    }

    fn accepts(&self, probe: &Probe<'_>, info: &StreamInfo) -> (r: bool) {
        if !probe.looks_textual() {
            return false;
        }
        if feed_like(info) {
            return true;
        }
        if !(info.is_ext("xml") || info.is_mime("application/xml") || info.is_mime("text/xml")) {
            return false;
        }
        let rss: [u8; 4] = [0x3c, 0x72, 0x73, 0x73];
        let feed: [u8; 5] = [0x3c, 0x66, 0x65, 0x65, 0x64];
        let channel: [u8; 8] = [0x3c, 0x63, 0x68, 0x61, 0x6e, 0x6e, 0x65, 0x6c];
        assert(rss@ =~= seq![0x3cu8, 0x72u8, 0x73u8, 0x73u8]);
        assert(feed@ =~= seq![0x3cu8, 0x66u8, 0x65u8, 0x65u8, 0x64u8]);
        assert(channel@ =~= seq![0x3cu8, 0x63u8, 0x68u8, 0x61u8, 0x6eu8, 0x6eu8, 0x65u8, 0x6cu8]);
        probe.contains(&rss) || probe.contains(&feed) || probe.contains(&channel)
    }

    fn convert(&self, bytes: &[u8], info: &StreamInfo, cx: &mut ConvertCx<'_>) -> (r: Result<
        Document,
        ConvertError,
    >) {
        let s = decode_info(bytes, &info.charset);
        let mut nodes: Vec<Node> = Vec::new();
        assert(nodes_view(nodes@) =~= seq![]);
        let read = read_events(&s, "feed", &mut nodes);
        assert(nodes_view(nodes@) =~= spec_nodes(s@));
        if let Err(e) = read {
            return Err(e);
        }
        if let Err(e) = cx.budget().check_deadline() {
            return Err(e);
        }
        Ok(feed_from(&nodes))
    }
}

} // verus!

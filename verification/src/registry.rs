//! Converters, and the order in which they are tried.

use vstd::prelude::*;
use crate::chars;
use crate::cx;
use crate::cx::{ConvertCx, CxV};
use crate::error::{ConvertError, ErrorV, WarningKind, WarningV};
use crate::ir::{Document, DocumentV};
use crate::stream_info;
use crate::stream_info::{Probe, ProbeV, StreamInfo, StreamInfoV};
use crate::text;

verus! {

/// Converters of one concrete format.
pub const PRIORITY_SPECIFIC: i32 = 0;

/// Converters that accept broad classes of input.
pub const PRIORITY_GENERIC: i32 = 100;

/// The value of a conversion's outcome.
pub open spec fn outcome(r: Result<Document, ConvertError>) -> Result<DocumentV, ErrorV> {
    match r {
        Ok(d) => Ok(d@),
        Err(e) => Err(e@),
    }
}

/// The conversion stopped because the clock ran out.
pub open spec fn late(pre: CxV, r: Result<DocumentV, ErrorV>) -> bool {
    r matches Err(e) && cx::timed_out(e, pre.limits)
}

/// A limit was exceeded, which ends a conversion.
pub open spec fn is_limit(r: Result<DocumentV, ErrorV>) -> bool {
    r matches Err(e) && e is LimitExceeded
}

pub open spec fn error_view(e: Option<ConvertError>) -> Option<ErrorV> {
    match e {
        Some(e) => Some(e@),
        None => None,
    }
}

pub open spec fn labels(guesses: Seq<StreamInfoV>) -> Seq<Seq<char>> {
    Seq::new(guesses.len(), |i: int| guesses[i].label())
}

/// The error where nothing could convert an input: the last one there was, or
/// the list of what was tried.
pub open spec fn no_result(guesses: Seq<StreamInfoV>, last: Option<ErrorV>) -> ErrorV {
    match last {
        Some(e) => e,
        None => ErrorV::Unsupported { tried: chars::join(labels(guesses), ", "@) },
    }
}

/// The document with a note on a type that was declared wrongly.
pub open spec fn noted(d: DocumentV, mismatch: Option<Seq<char>>) -> DocumentV {
    match mismatch {
        Some(m) => d.warned(WarningV { kind: WarningKind::TypeMismatch, message: m }),
        None => d,
    }
}

/// A converter for one input format.
pub trait Converter: Send + Sync {
    /// The converter's name.
    open spec fn named(&self) -> Seq<char> {
        arbitrary()
    }

    /// The converter's priority; lower runs first.
    open spec fn ranked(&self) -> i32 {
        arbitrary()
    }

    /// The inputs that the converter accepts.
    open spec fn takes(&self, probe: ProbeV, info: StreamInfoV) -> bool {
        arbitrary()
    }

    /// What a conversion may give, and what it may leave of the budget.
    open spec fn converts(
        &self,
        bytes: Seq<u8>,
        info: StreamInfoV,
        pre: CxV,
        post: CxV,
        r: Result<DocumentV, ErrorV>,
    ) -> bool {
        arbitrary()
    }

    fn name(&self) -> (r: &'static str)
        ensures
            r@ == self.named(),
    ;

    fn priority(&self) -> (r: i32)
        ensures
            r == self.ranked(),
    ;

    /// A cheap test on the start of the input.
    fn accepts(&self, probe: &Probe<'_>, info: &StreamInfo) -> (r: bool)
        ensures
            r == self.takes(probe@, info@),
    ;

    fn convert(&self, bytes: &[u8], info: &StreamInfo, cx: &mut ConvertCx<'_>) -> (r: Result<
        Document,
        ConvertError,
    >)
        ensures
            old(cx)@.grows_to(final(cx)@),
            *final(final(cx).budget) == *final(old(cx).budget),
            final(cx).start() == old(cx).start(),
            self.converts(bytes@, info@, old(cx)@, final(cx)@, outcome(r)),
    ;
}

/// A registered converter.
pub struct Entry<C> {
    pub converter: C,
    pub priority: i32,
}

/// `a` is tried before `b`, which is registered later: within one priority the
/// later registration comes first.
pub open spec fn runs_before<C>(a: Entry<C>, b: Entry<C>) -> bool {
    a.priority < b.priority
}

/// Lower priorities come first.
pub open spec fn in_order<C>(s: Seq<Entry<C>>) -> bool {
    forall|i: int, j: int|
        0 <= i < j < s.len() ==> (#[trigger] s[i]).priority <= (#[trigger] s[j]).priority
}

/// How many leading entries run before `e`, which is new.
pub open spec fn rank_of<C>(s: Seq<Entry<C>>, e: Entry<C>) -> int
    decreases s.len(),
{
    if s.len() > 0 && runs_before(s[0], e) {
        1 + rank_of(s.skip(1), e)
    } else {
        0
    }
}

/// `s` with `e` at its place.
pub open spec fn inserted<C>(s: Seq<Entry<C>>, e: Entry<C>) -> Seq<Entry<C>> {
    s.insert(rank_of(s, e), e)
}

/// One of the names is the entry's.
pub open spec fn is_kept<C: Converter>(e: Entry<C>, keep: Seq<Seq<char>>) -> bool {
    keep.contains(e.converter.named())
}

/// The entries whose names are kept, in their order.
pub open spec fn retained<C: Converter>(s: Seq<Entry<C>>, keep: Seq<Seq<char>>) -> Seq<Entry<C>>
    decreases s.len(),
{
    if s.len() == 0 {
        seq![]
    } else {
        let t = retained(s.drop_last(), keep);
        if is_kept(s.last(), keep) {
            t.push(s.last())
        } else {
            t
        }
    }
}

pub open spec fn names_of<C: Converter>(s: Seq<Entry<C>>) -> Seq<Seq<char>> {
    Seq::new(s.len(), |i: int| s[i].converter.named())
}

pub open spec fn strs(v: Seq<&'static str>) -> Seq<Seq<char>> {
    Seq::new(v.len(), |i: int| v[i]@)
}

/// The converters of an engine, in the order in which they are tried.
pub struct ConverterRegistry<C> {
    entries: Vec<Entry<C>>,
}

pub(crate) proof fn lemma_rank<C>(s: Seq<Entry<C>>, e: Entry<C>)
    ensures
        0 <= rank_of(s, e) <= s.len(),
        forall|i: int| 0 <= i < rank_of(s, e) ==> runs_before(#[trigger] s[i], e),
        rank_of(s, e) < s.len() ==> !runs_before(s[rank_of(s, e)], e),
    decreases s.len(),
{
    if s.len() > 0 && runs_before(s[0], e) {
        lemma_rank(s.skip(1), e);
        assert forall|i: int| 0 <= i < rank_of(s, e) implies runs_before(#[trigger] s[i], e) by {
            if i > 0 {
                assert(s[i] == s.skip(1)[i - 1]);
            }
        }
    }
}

pub proof fn lemma_rank_is<C>(s: Seq<Entry<C>>, e: Entry<C>, k: int)
    requires
        0 <= k <= s.len(),
        forall|i: int| 0 <= i < k ==> runs_before(#[trigger] s[i], e),
        k < s.len() ==> !runs_before(s[k], e),
    ensures
        rank_of(s, e) == k,
{
    lemma_rank(s, e);
    let n = rank_of(s, e);
    if n < k {
        assert(runs_before(s[n], e));
    } else if n > k {
        assert(runs_before(s[k], e));
    }
}

/// Registration keeps the order: whatever is registered, lower priorities stay
/// in front.
pub proof fn registration_keeps_order<C>(s: Seq<Entry<C>>, e: Entry<C>)
    requires
        in_order(s),
    ensures
        in_order(inserted(s, e)),
        inserted(s, e).len() == s.len() + 1,
        inserted(s, e)[rank_of(s, e)] == e,
{
    lemma_rank(s, e);
    let k = rank_of(s, e);
    let t = inserted(s, e);
    assert forall|i: int, j: int| 0 <= i < j < t.len() implies (#[trigger] t[i]).priority <= (
    #[trigger] t[j]).priority by {
        if i < k && j > k {
            assert(s[i].priority <= s[j - 1].priority);
        } else if i == k && j > k {
            assert(!runs_before(s[k], e));
            assert(k == j - 1 || s[k].priority <= s[j - 1].priority);
        } else if i > k {
            assert(s[i - 1].priority <= s[j - 1].priority);
        } else if j < k {
            assert(s[i].priority <= s[j].priority);
        } else {
            assert(runs_before(s[i], e));
        }
    }
}

/// A new registration runs before every entry of its priority.
pub proof fn latest_registration_wins<C>(s: Seq<Entry<C>>, e: Entry<C>, i: int)
    requires
        0 <= i < s.len(),
        s[i].priority == e.priority,
    ensures
        rank_of(s, e) <= i,
{
    lemma_rank(s, e);
    assert(!runs_before(s[i], e));
}

proof fn lemma_retained_in_order<C: Converter>(s: Seq<Entry<C>>, keep: Seq<Seq<char>>)
    requires
        in_order(s),
    ensures
        in_order(retained(s, keep)),
        forall|i: int|
            0 <= i < retained(s, keep).len() ==> s.contains(#[trigger] retained(s, keep)[i])
                && is_kept(retained(s, keep)[i], keep),
    decreases s.len(),
{
    if s.len() > 0 {
        let d = s.drop_last();
        assert(in_order(d)) by {
            assert forall|i: int, j: int| 0 <= i < j < d.len() implies (#[trigger] d[i]).priority
                <= (#[trigger] d[j]).priority by {
                assert(s[i].priority <= s[j].priority);
            }
        }
        lemma_retained_in_order(d, keep);
        let t = retained(d, keep);
        let u = retained(s, keep);
        assert forall|i: int| 0 <= i < u.len() implies s.contains(#[trigger] u[i]) && is_kept(
            u[i],
            keep,
        ) by {
            if i < t.len() {
                assert(u[i] == t[i]);
                let k = choose|k: int| 0 <= k < d.len() && d[k] == t[i];
                assert(s[k] == t[i]);
            } else {
                assert(s[s.len() - 1] == u[i]);
            }
        }
        assert forall|i: int, j: int| 0 <= i < j < u.len() implies (#[trigger] u[i]).priority <= (
        #[trigger] u[j]).priority by {
            assert(u[i] == t[i]);
            if j < t.len() {
                assert(u[j] == t[j]);
            } else {
                let k = choose|k: int| 0 <= k < d.len() && d[k] == t[i];
                assert(d[k] == s[k]);
                assert(s[k].priority <= s[s.len() - 1].priority);
            }
        }
    }
}

/// Dropping converters keeps the order of the rest, and only named ones stay.
pub proof fn retaining_keeps_order<C: Converter>(s: Seq<Entry<C>>, keep: Seq<Seq<char>>)
    requires
        in_order(s),
    ensures
        in_order(retained(s, keep)),
        forall|i: int|
            0 <= i < retained(s, keep).len() ==> s.contains(#[trigger] retained(s, keep)[i])
                && is_kept(retained(s, keep)[i], keep),
{
    lemma_retained_in_order(s, keep);
}

impl<C> ConverterRegistry<C> {
    /// The entries in the order in which they are tried.
    pub closed spec fn entries(&self) -> Seq<Entry<C>> {
        self.entries@
    }
}

impl<C> Default for ConverterRegistry<C> {
    fn default() -> (r: Self)
        ensures
            r.entries() == Seq::<Entry<C>>::empty(),
    {
        ConverterRegistry { entries: Vec::new() }
    }
}

impl<C: Converter> ConverterRegistry<C> {
    #[must_use]
    pub fn new() -> (r: Self)
        ensures
            r.entries() == Seq::<Entry<C>>::empty(),
    {
        ConverterRegistry::default()
    }

    /// Registers a converter at its own priority.
    pub fn register(&mut self, converter: C)
        ensures
            final(self).entries() == inserted(
                old(self).entries(),
                (Entry { converter, priority: converter.ranked() }),
            ),
    {
        let priority: i32 = converter.priority();
        let e = Entry { converter, priority };
        self.place(e);
    }

    /// Registers a converter at a given priority.
    pub fn register_at(&mut self, converter: C, priority: i32)
        ensures
            final(self).entries() == inserted(
                old(self).entries(),
                (Entry { converter, priority }),
            ),
    {
        let e = Entry { converter, priority };
        self.place(e);
    }

    fn place(&mut self, e: Entry<C>)
        ensures
            final(self).entries() == inserted(old(self).entries(), e),
    {
        let ghost s = self.entries@;
        let mut k: usize = 0;
        assert(s.skip(0) =~= s);
        while k < self.entries.len() && self.entries[k].priority < e.priority
            invariant
                s == self.entries@,
                k <= s.len(),
                rank_of(s, e) == k + rank_of(s.skip(k as int), e),
            decreases s.len() - k,
        {
            assert(s.skip(k as int).skip(1) =~= s.skip(k + 1));
            assert(s.skip(k as int)[0] == s[k as int]);
            k += 1;
        }
        assert(rank_of(s.skip(k as int), e) == 0) by {
            if k < s.len() {
                assert(s.skip(k as int)[0] == s[k as int]);
            }
        }
        self.entries.insert(k, e);
    }

    /// Drops every converter that is not named.
    pub fn retain_names(&mut self, keep: &[String])
        ensures
            final(self).entries() == retained(old(self).entries(), chars::texts(keep@)),
    {
        let ghost s = self.entries@;
        let ghost names = chars::texts(keep@);
        let ghost mut j: int = 0;
        let mut i: usize = 0;
        assert(s.take(0) =~= seq![]);
        assert(retained(s.take(0), names) + s.skip(0) =~= s);
        while i < self.entries.len()
            invariant
                0 <= j <= s.len(),
                names == chars::texts(keep@),
                i == retained(s.take(j), names).len(),
                self.entries@ == retained(s.take(j), names) + s.skip(j),
            decreases self.entries@.len() - i,
        {
            let ghost t = retained(s.take(j), names);
            proof {
                assert(self.entries@[i as int] == s[j]);
                assert(s.take(j + 1).drop_last() =~= s.take(j));
                assert(s.take(j + 1).last() == s[j]);
            }
            if name_in(self.entries[i].converter.name(), keep) {
                assert(retained(s.take(j + 1), names) + s.skip(j + 1) =~= t + s.skip(j));
                i += 1;
            } else {
                self.entries.remove(i);
                assert(self.entries@ =~= t + s.skip(j + 1));
            }
            proof {
                j = j + 1;
            }
        }
        assert(s.skip(j).len() == 0);
        assert(self.entries@ =~= retained(s.take(j), names));
        assert(s.take(s.len() as int) =~= s);
    }

    /// The converters' names in the order in which they are tried.
    #[must_use]
    pub fn names(&self) -> (r: Vec<&'static str>)
        ensures
            strs(r@) == names_of(self.entries()),
    {
        let mut out: Vec<&'static str> = Vec::new();
        let mut i: usize = 0;
        while i < self.entries.len()
            invariant
                i <= self.entries@.len(),
                out@.len() == i,
                forall|k: int|
                    0 <= k < i ==> (#[trigger] out@[k])@ == self.entries@[k].converter.named(),
            decreases self.entries@.len() - i,
        {
            out.push(self.entries[i].converter.name());
            i += 1;
        }
        assert(strs(out@) =~= names_of(self.entries@));
        out
    }

    #[must_use]
    pub fn is_empty(&self) -> (r: bool)
        ensures
            r == (self.entries().len() == 0),
    {
        self.entries.len() == 0
    }

    #[must_use]
    pub fn len(&self) -> (r: usize)
        ensures
            r == self.entries().len(),
    {
        self.entries.len()
    }

    /// The converters in the order in which they are tried.
    #[must_use]
    pub fn iter(&self) -> (r: Vec<&C>)
        ensures
            r@.len() == self.entries().len(),
            forall|i: int|
                0 <= i < r@.len() ==> *(#[trigger] r@[i]) == self.entries()[i].converter,
    {
        let mut out: Vec<&C> = Vec::new();
        let mut i: usize = 0;
        while i < self.entries.len()
            invariant
                i <= self.entries@.len(),
                self.entries@ == self.entries(),
                out@.len() == i,
                forall|k: int| 0 <= k < i ==> *(#[trigger] out@[k]) == self.entries()[k].converter,
            decreases self.entries@.len() - i,
        {
            out.push(&self.entries[i].converter);
            i += 1;
        }
        out
    }
}

/// The name is among those kept.
fn name_in(name: &str, keep: &[String]) -> (r: bool)
    ensures
        r == chars::texts(keep@).contains(name@),
{
    let mut i: usize = 0;
    while i < keep.len()
        invariant
            i <= keep@.len(),
            forall|k: int| 0 <= k < i ==> (#[trigger] keep@[k])@ != name@,
        decreases keep@.len() - i,
    {
        if text::eq(keep[i].as_str(), name) {
            assert(chars::texts(keep@)[i as int] == name@);
            return true;
        }
        i += 1;
    }
    assert forall|k: int| 0 <= k < chars::texts(keep@).len() implies chars::texts(keep@)[k]
        != name@ by {
        assert(keep@[k]@ != name@);
    }
    false
}

/// The error where nothing could convert an input.
pub(crate) fn give_up(guesses: &Vec<StreamInfo>, last: Option<ConvertError>) -> (r: ConvertError)
    ensures
        r@ == no_result(stream_info::infos_view(guesses@), error_view(last)),
{
    if let Some(e) = last {
        return e;
    }
    let ghost v = stream_info::infos_view(guesses@);
    let mut tried: Vec<String> = Vec::new();
    let mut i: usize = 0;
    while i < guesses.len()
        invariant
            i <= guesses@.len(),
            v == stream_info::infos_view(guesses@),
            chars::texts(tried@) =~= labels(v).take(i as int),
        decreases guesses@.len() - i,
    {
        let l = guesses[i].label();
        proof {
            chars::lemma_texts_push(tried@, l);
        }
        tried.push(l);
        i += 1;
    }
    assert(labels(v).take(v.len() as int) =~= labels(v));
    ConvertError::Unsupported { tried: text::join(&tried, ", ") }
}

} // verus!

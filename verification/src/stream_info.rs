//! What is known about an input before it is parsed.

use vstd::prelude::*;
use crate::bytes;
use crate::chars;
use crate::text;
use crate::text::IntoText;

verus! {

/// What the caller, or detection, says about an input.
#[derive(Debug, PartialEq, Eq)]
pub struct StreamInfo {
    /// MIME type without parameters, in lower case.
    pub mimetype: Option<String>,
    /// File extension without its dot, in lower case.
    pub extension: Option<String>,
    /// Character encoding, in lower case.
    pub charset: Option<String>,
    pub filename: Option<String>,
    pub url: Option<String>,
}

/// The value of a [`StreamInfo`].
#[verifier::ext_equal]
pub struct StreamInfoV {
    pub mimetype: Option<Seq<char>>,
    pub extension: Option<Seq<char>>,
    pub charset: Option<Seq<char>>,
    pub filename: Option<Seq<char>>,
    pub url: Option<Seq<char>>,
}

impl View for StreamInfo {
    type V = StreamInfoV;

    open spec fn view(&self) -> StreamInfoV {
        StreamInfoV {
            mimetype: chars::opt(self.mimetype),
            extension: chars::opt(self.extension),
            charset: chars::opt(self.charset),
            filename: chars::opt(self.filename),
            url: chars::opt(self.url),
        }
    }
}

/// The values of a list of infos.
pub open spec fn infos_view(s: Seq<StreamInfo>) -> Seq<StreamInfoV> {
    Seq::new(s.len(), |i: int| s[i]@)
}

pub open spec fn empty_info() -> StreamInfoV {
    StreamInfoV { mimetype: None, extension: None, charset: None, filename: None, url: None }
}

/// A MIME type without its parameters, in lower case.
pub open spec fn spec_normalize_mime(raw: Seq<char>) -> Seq<char> {
    chars::lower(chars::trim(chars::split(raw, ";"@)[0]))
}

/// An extension without white space and leading dots, in lower case.
pub open spec fn spec_normalize_ext(raw: Seq<char>) -> Seq<char> {
    chars::lower(chars::trim_start_char(chars::trim(raw), '.'))
}

/// What follows the last dot, where there is one.
pub open spec fn dotted_ext(name: Seq<char>) -> Option<Seq<char>> {
    match chars::rfind(name, "."@) {
        Some(i) => Some(name.skip(i + "."@.len())),
        None => None,
    }
}

impl StreamInfoV {
    /// Sets the filename, and the extension from it where none is known yet.
    pub open spec fn with_filename(self, f: Seq<char>) -> StreamInfoV {
        let extension = match (self.extension, dotted_ext(f)) {
            (None, Some(e)) => if e.len() > 0 {
                Some(spec_normalize_ext(e))
            } else {
                None
            },
            _ => self.extension,
        };
        StreamInfoV { extension, filename: Some(f), ..self }
    }

    pub open spec fn is_ext(self, e: Seq<char>) -> bool {
        self.extension == Some(e)
    }

    pub open spec fn is_mime(self, m: Seq<char>) -> bool {
        self.mimetype == Some(m)
    }

    pub open spec fn label(self) -> Seq<char> {
        match (self.mimetype, self.extension) {
            (Some(m), Some(e)) => m + "/."@ + e,
            (Some(m), None) => m,
            (None, Some(e)) => "."@ + e,
            (None, None) => "unknown"@,
        }
    }
}

impl Default for StreamInfo {
    fn default() -> (r: Self)
        ensures
            r@ == empty_info(),
    {
        StreamInfo { mimetype: None, extension: None, charset: None, filename: None, url: None }
    }
}

impl Clone for StreamInfo {
    fn clone(&self) -> (r: Self)
        ensures
            r@ == self@,
    {
        StreamInfo {
            mimetype: text::opt_clone(&self.mimetype),
            extension: text::opt_clone(&self.extension),
            charset: text::opt_clone(&self.charset),
            filename: text::opt_clone(&self.filename),
            url: text::opt_clone(&self.url),
        }
    }
}

impl StreamInfo {
    #[must_use]
    pub fn new() -> (r: Self)
        ensures
            r@ == empty_info(),
    {
        StreamInfo::default()
    }

    #[must_use]
    pub fn with_mimetype<T: IntoText>(self, m: T) -> (r: Self)
        ensures
            r@ == (StreamInfoV { mimetype: Some(spec_normalize_mime(m.text())), ..self@ }),
    {
        let mut s = self;
        let t = m.into_text();
        s.mimetype = Some(normalize_mime(&t));
        s
    }

    #[must_use]
    pub fn with_extension<T: IntoText>(self, e: T) -> (r: Self)
        ensures
            r@ == (StreamInfoV { extension: Some(spec_normalize_ext(e.text())), ..self@ }),
    {
        let mut s = self;
        let t = e.into_text();
        s.extension = Some(normalize_ext(&t));
        s
    }

    #[must_use]
    pub fn with_charset<T: IntoText>(self, c: T) -> (r: Self)
        ensures
            r@ == (StreamInfoV { charset: Some(chars::lower(c.text())), ..self@ }),
    {
        let mut s = self;
        let t = c.into_text();
        s.charset = Some(text::lower(&t));
        s
    }

    /// Sets the filename, and the extension from it where none is known yet.
    #[must_use]
    pub fn with_filename<T: IntoText>(self, f: T) -> (r: Self)
        ensures
            r@ == self@.with_filename(f.text()),
    {
        let mut s = self;
        let t = f.into_text();
        if s.extension.is_none() {
            if let Some(e) = after_last_dot(&t) {
                if !text::is_empty(&e) {
                    s.extension = Some(normalize_ext(&e));
                }
            }
        }
        s.filename = Some(t);
        s
    }

    #[must_use]
    pub fn with_url<T: IntoText>(self, u: T) -> (r: Self)
        ensures
            r@ == (StreamInfoV { url: Some(u.text()), ..self@ }),
    {
        let mut s = self;
        s.url = Some(u.into_text());
        s
    }

    #[must_use]
    pub fn is_ext(&self, ext: &str) -> (r: bool)
        ensures
            r == self@.is_ext(ext@),
    {
        match &self.extension {
            Some(e) => text::eq(e, ext),
            None => false,
        }
    }

    #[must_use]
    pub fn is_mime(&self, mime: &str) -> (r: bool)
        ensures
            r == self@.is_mime(mime@),
    {
        match &self.mimetype {
            Some(m) => text::eq(m, mime),
            None => false,
        }
    }

    /// How the info is named in messages.
    #[must_use]
    pub fn label(&self) -> (r: String)
        ensures
            r@ == self@.label(),
    {
        match (&self.mimetype, &self.extension) {
            (Some(m), Some(e)) => text::cat3(m, "/.", e),
            (Some(m), None) => m.clone(),
            (None, Some(e)) => text::cat(".", e),
            (None, None) => "unknown".to_owned(),
        }
    }
}

fn after_last_dot(name: &str) -> (r: Option<String>)
    ensures
        chars::opt(r) == dotted_ext(name@),
{
    match text::rfind(name, ".") {
        Some(i) => {
            proof {
                reveal_strlit(".");
            }
            let v = text::to_chars(name);
            assert(i < v.len());
            assert(v@.skip(i + 1) =~= v@.subrange(i + 1, v@.len() as int));
            Some(text::slice(&v, i + 1, v.len()))
        },
        None => None,
    }
}

proof fn lemma_split_nonempty(s: Seq<char>, p: Seq<char>)
    ensures
        chars::split(s, p).len() > 0,
{
}

/// A MIME type without its parameters, in lower case.
#[must_use]
pub fn normalize_mime(raw: &str) -> (r: String)
    ensures
        r@ == spec_normalize_mime(raw@),
{
    let parts = text::split(raw, ";");
    proof {
        lemma_split_nonempty(raw@, ";"@);
        assert(chars::texts(parts@)[0] == parts@[0]@);
    }
    let t = text::trim(&parts[0]);
    text::lower(&t)
}

/// An extension without white space and leading dots, in lower case.
#[must_use]
pub fn normalize_ext(raw: &str) -> (r: String)
    ensures
        r@ == spec_normalize_ext(raw@),
{
    let a = text::trim(raw);
    let b = text::trim_start_char(&a, '.');
    text::lower(&b)
}

/// How much of an input a converter may look at before it accepts.
pub const PROBE_BYTES: usize = 8192;

/// The bounded view of an input that acceptance tests work on.
#[derive(Debug, Clone, Copy)]
pub struct Probe<'a> {
    head: &'a [u8],
    total_len: usize,
}

/// The value of a [`Probe`].
#[verifier::ext_equal]
pub struct ProbeV {
    pub head: Seq<u8>,
    pub total: nat,
}

impl<'a> View for Probe<'a> {
    type V = ProbeV;

    closed spec fn view(&self) -> ProbeV {
        ProbeV { head: self.head@, total: self.total_len as nat }
    }
}

/// The probe of an input: its first bytes and its length.
pub open spec fn spec_probe(bytes: Seq<u8>) -> ProbeV {
    ProbeV {
        head: if bytes.len() < PROBE_BYTES {
            bytes
        } else {
            bytes.take(PROBE_BYTES as int)
        },
        total: bytes.len(),
    }
}

/// A control byte that text does not hold.
pub open spec fn is_stray_control(b: u8) -> bool {
    b < 0x09 || (b > 0x0d && b < 0x20)
}

pub open spec fn stray_controls(s: Seq<u8>) -> nat
    decreases s.len(),
{
    if s.len() == 0 {
        0
    } else {
        stray_controls(s.drop_last()) + (if is_stray_control(s.last()) {
            1nat
        } else {
            0
        })
    }
}

/// The first bytes of a character, cut off before its last.
pub open spec fn is_cut_char(t: Seq<u8>) -> bool {
    &&& t.len() > 0
    &&& 0xC2 <= t[0] <= 0xF4
    &&& forall|i: int| 1 <= i < t.len() ==> 0x80 <= #[trigger] t[i] <= 0xBF
    &&& t.len() < (if t[0] < 0xE0 {
        2int
    } else if t[0] < 0xF0 {
        3
    } else {
        4
    })
}

/// The window is UTF-8; where the input goes on behind it, the window may end
/// inside a character.
pub open spec fn decodes(head: Seq<u8>, goes_on: bool) -> bool {
    vstd::utf8::valid_utf8(head) || goes_on && exists|n: int|
        0 <= n < head.len() && is_cut_char(#[trigger] head.skip(n)) && vstd::utf8::valid_utf8(
            head.take(n),
        )
}

impl ProbeV {
    pub open spec fn starts_with(self, magic: Seq<u8>) -> bool {
        bytes::spec_starts_with(self.head, magic)
    }

    pub open spec fn contains(self, needle: Seq<u8>) -> bool {
        bytes::spec_contains(self.head, needle)
    }

    /// UTF-8 without a zero byte, and fewer than one byte in a hundred a stray
    /// control.
    pub open spec fn looks_textual(self) -> bool {
        ||| self.head.len() == 0
        ||| {
            &&& decodes(self.head, self.total > self.head.len())
            &&& !self.head.contains(0u8)
            &&& stray_controls(self.head) * 100 < self.head.len()
        }
    }

    pub open spec fn leading_text(self, max: nat) -> Seq<char> {
        let n = if self.head.len() < max {
            self.head.len()
        } else {
            max
        };
        chars::lower(chars::trim_start(bytes::lossy(self.head.take(n as int))))
    }
}

/// Acceptance sees only the probe window: two inputs of the same length that
/// agree on their first `PROBE_BYTES` bytes have the same probe.
pub proof fn probe_is_bounded(a: Seq<u8>, b: Seq<u8>)
    requires
        a.len() == b.len(),
        forall|i: int| 0 <= i < a.len() && i < PROBE_BYTES ==> a[i] == b[i],
    ensures
        spec_probe(a) == spec_probe(b),
        spec_probe(a).head.len() <= PROBE_BYTES,
{
    assert(spec_probe(a).head =~= spec_probe(b).head);
}

/// Whether the bytes are the start of a character, cut off before its last.
fn cut_char(t: &[u8]) -> (r: bool)
    ensures
        r == is_cut_char(t@),
{
    if t.len() == 0 || t[0] < 0xC2 || t[0] > 0xF4 {
        return false;
    }
    let need: usize = if t[0] < 0xE0 {
        2
    } else if t[0] < 0xF0 {
        3
    } else {
        4
    };
    if t.len() >= need {
        return false;
    }
    let mut i: usize = 1;
    while i < t.len()
        invariant
            1 <= i <= t@.len(),
            forall|k: int| 1 <= k < i ==> 0x80 <= #[trigger] t@[k] <= 0xBF,
        decreases t@.len() - i,
    {
        if t[i] < 0x80 || t[i] > 0xBF {
            return false;
        }
        i += 1;
    }
    true
}

impl<'a> Probe<'a> {
    #[must_use]
    pub fn new(bytes: &'a [u8]) -> (r: Self)
        ensures
            r@ == spec_probe(bytes@),
    {
        let n: usize = if bytes.len() < PROBE_BYTES {
            bytes.len()
        } else {
            PROBE_BYTES
        };
        let head = vstd::slice::slice_subrange(bytes, 0, n);
        assert(head@ =~= spec_probe(bytes@).head);
        Probe { head, total_len: bytes.len() }
    }

    #[must_use]
    pub fn head(&self) -> (r: &'a [u8])
        ensures
            r@ == self@.head,
    {
        self.head
    }

    #[must_use]
    pub fn len(&self) -> (r: usize)
        ensures
            r == self@.total,
    {
        self.total_len
    }

    #[must_use]
    pub fn is_empty(&self) -> (r: bool)
        ensures
            r == (self@.total == 0),
    {
        self.total_len == 0
    }

    #[must_use]
    pub fn starts_with(&self, magic: &[u8]) -> (r: bool)
        ensures
            r == self@.starts_with(magic@),
    {
        bytes::starts_with(self.head, magic)
    }

    #[must_use]
    pub fn contains(&self, needle: &[u8]) -> (r: bool)
        ensures
            r == self@.contains(needle@),
    {
        bytes::contains(self.head, needle)
    }

    /// UTF-8 without a zero byte, and fewer than one byte in a hundred a stray
    /// control.
    #[must_use]
    pub fn looks_textual(&self) -> (r: bool)
        ensures
            r == self@.looks_textual(),
    {
        let mut zero: bool = false;
        let mut controls: u128 = 0;
        let mut i: usize = 0;
        let ghost h = self.head@;
        while i < self.head.len()
            invariant
                h == self.head@,
                i <= h.len(),
                controls <= i,
                zero == h.take(i as int).contains(0u8),
                controls == stray_controls(h.take(i as int)),
            decreases h.len() - i,
        {
            let b: u8 = self.head[i];
            proof {
                assert(h.take(i + 1).drop_last() =~= h.take(i as int));
                assert(h.take(i + 1).last() == b);
                let now = h.take(i as int);
                let next = h.take(i + 1);
                if b == 0 {
                    assert(next[i as int] == 0u8);
                } else if next.contains(0u8) {
                    let k = choose|k: int| 0 <= k < next.len() && next[k] == 0u8;
                    assert(now[k] == 0u8);
                }
                if now.contains(0u8) {
                    let k = choose|k: int| 0 <= k < now.len() && now[k] == 0u8;
                    assert(next[k] == 0u8);
                }
            }
            if b == 0 {
                zero = true;
            }
            if b < 0x09 || (b > 0x0d && b < 0x20) {
                controls += 1;
            }
            i += 1;
        }
        assert(h.take(h.len() as int) =~= h);
        self.head.len() == 0 || (!zero && controls * 100 < self.head.len() as u128
            && self.decodes())
    }

    /// Whether the window is UTF-8, but for a character that its end cuts.
    fn decodes(&self) -> (r: bool)
        ensures
            r == decodes(self@.head, self@.total > self@.head.len()),
    {
        let ghost h = self.head@;
        if bytes::is_utf8(self.head) {
            return true;
        }
        if self.total_len <= self.head.len() {
            return false;
        }
        let mut k: usize = 1;
        while k < 4 && k <= self.head.len()
            invariant
                h == self.head@,
                self.total_len > h.len(),
                1 <= k <= 4,
                forall|n: int|
                    h.len() - k < n < h.len() && 0 <= n ==> !(is_cut_char(#[trigger] h.skip(n))
                        && vstd::utf8::valid_utf8(h.take(n))),
            decreases 4 - k,
        {
            let n: usize = self.head.len() - k;
            let front = vstd::slice::slice_subrange(self.head, 0, n);
            let back = vstd::slice::slice_subrange(self.head, n, self.head.len());
            assert(front@ =~= h.take(n as int));
            assert(back@ =~= h.skip(n as int));
            if cut_char(back) && bytes::is_utf8(front) {
                return true;
            }
            k += 1;
        }
        assert forall|n: int| 0 <= n < h.len() implies !(is_cut_char(#[trigger] h.skip(n))
            && vstd::utf8::valid_utf8(h.take(n))) by {
            if n <= h.len() - k {
                assert(h.skip(n).len() >= k);
            }
        }
        false
    }

    /// The start of the input as text, in lower case.
    #[must_use]
    pub fn leading_text(&self, max: usize) -> (r: String)
        ensures
            r@ == self@.leading_text(max as nat),
    {
        let n: usize = if self.head.len() < max {
            self.head.len()
        } else {
            max
        };
        let part = vstd::slice::slice_subrange(self.head, 0, n);
        assert(part@ =~= self.head@.take(n as int));
        let s = bytes::from_utf8_lossy(part);
        let t = text::trim_start(&s);
        text::lower(&t)
    }
}

} // verus!

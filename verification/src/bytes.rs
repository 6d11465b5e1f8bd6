//! Functions on byte slices.

use vstd::prelude::*;

verus! {

pub open spec fn spec_starts_with(s: Seq<u8>, p: Seq<u8>) -> bool {
    p.len() <= s.len() && s.take(p.len() as int) == p
}

/// `p` stands in `s` at position `i`.
pub open spec fn spec_matches_at(s: Seq<u8>, p: Seq<u8>, i: int) -> bool {
    0 <= i && i + p.len() <= s.len() && s.subrange(i, i + p.len()) == p
}

/// `p` is not empty and stands somewhere in `s`.
pub open spec fn spec_contains(s: Seq<u8>, p: Seq<u8>) -> bool {
    p.len() > 0 && exists|i: int| #[trigger] spec_matches_at(s, p, i)
}

/// What `String::from_utf8_lossy` makes of the bytes.
pub uninterp spec fn lossy(bytes: Seq<u8>) -> Seq<char>;

/// `String::from_utf8_lossy`: a function of the bytes; well-formed UTF-8 comes
/// out as it is.
#[verifier::external_body]
pub(crate) fn from_utf8_lossy(bytes: &[u8]) -> (r: String)
    ensures
        r@ == lossy(bytes@),
        vstd::utf8::valid_utf8(bytes@) ==> r@ == vstd::utf8::decode_utf8(bytes@),
{
    String::from_utf8_lossy(bytes).into_owned()
}

/// `std::str::from_utf8`: succeeds exactly on well-formed UTF-8.
#[verifier::external_body]
pub(crate) fn is_utf8(bytes: &[u8]) -> (r: bool)
    ensures
        r == vstd::utf8::valid_utf8(bytes@),
{
    std::str::from_utf8(bytes).is_ok()
}

pub open spec fn is_high_surrogate(u: u16) -> bool {
    0xd800 <= u <= 0xdbff
}

pub open spec fn is_low_surrogate(u: u16) -> bool {
    0xdc00 <= u <= 0xdfff
}

/// UTF-16 as text, with a replacement character for each unpaired surrogate.
pub open spec fn utf16_text(units: Seq<u16>) -> Seq<char>
    decreases units.len(),
{
    if units.len() == 0 {
        seq![]
    } else if is_high_surrogate(units[0]) && units.len() > 1 && is_low_surrogate(units[1]) {
        seq![
            (0x10000 + (units[0] - 0xd800) * 0x400 + (units[1] - 0xdc00)) as char,
        ] + utf16_text(units.skip(2))
    } else if is_high_surrogate(units[0]) || is_low_surrogate(units[0]) {
        seq!['\u{fffd}'] + utf16_text(units.skip(1))
    } else {
        seq![units[0] as char] + utf16_text(units.skip(1))
    }
}

/// `String::from_utf16_lossy`: decodes UTF-16 and puts the replacement
/// character in place of each unpaired surrogate.
#[verifier::external_body]
pub(crate) fn from_utf16_lossy(units: &[u16]) -> (r: String)
    ensures
        r@ == utf16_text(units@),
{
    String::from_utf16_lossy(units)
}

/// The 16-bit units of the bytes, two by two; an odd byte at the end is left
/// out.
pub open spec fn units_of(b: Seq<u8>, big_endian: bool) -> Seq<u16> {
    Seq::new(
        (b.len() / 2) as nat,
        |i: int|
            if big_endian {
                (b[2 * i] as u16 * 256 + b[2 * i + 1] as u16) as u16
            } else {
                (b[2 * i + 1] as u16 * 256 + b[2 * i] as u16) as u16
            },
    )
}

/// UTF-16 bytes as text.
pub fn decode_utf16(b: &[u8], big_endian: bool) -> (r: String)
    ensures
        r@ == utf16_text(units_of(b@, big_endian)),
{
    let mut units: Vec<u16> = Vec::new();
    let n: usize = b.len() / 2;
    let mut i: usize = 0;
    while i < n
        invariant
            n == b@.len() / 2,
            2 * n <= b.len(),
            i <= n,
            units@.len() == i,
            forall|k: int| 0 <= k < i ==> #[trigger] units@[k] == units_of(b@, big_endian)[k],
        decreases n - i,
    {
        let x: u16 = b[2 * i] as u16;
        let y: u16 = b[2 * i + 1] as u16;
        let u: u16 = if big_endian {
            x * 256 + y
        } else {
            y * 256 + x
        };
        units.push(u);
        i += 1;
    }
    assert(units@ =~= units_of(b@, big_endian));
    from_utf16_lossy(units.as_slice())
}

pub fn matches_at(s: &[u8], p: &[u8], i: usize) -> (r: bool)
    requires
        i <= s@.len(),
    ensures
        r == spec_matches_at(s@, p@, i as int),
{
    if p.len() > s.len() - i {
        return false;
    }
    let mut k: usize = 0;
    while k < p.len()
        invariant
            k <= p@.len(),
            i + p@.len() <= s.len(),
            s.len() == s@.len(),
            forall|m: int| 0 <= m < k ==> s@[i + m] == p@[m],
        decreases p@.len() - k,
    {
        if s[i + k] != p[k] {
            assert(s@.subrange(i as int, i + p@.len())[k as int] != p@[k as int]);
            return false;
        }
        k += 1;
    }
    assert(s@.subrange(i as int, i + p@.len()) =~= p@);
    true
}

pub fn starts_with(s: &[u8], p: &[u8]) -> (r: bool)
    ensures
        r == spec_starts_with(s@, p@),
{
    assert(p@.len() <= s@.len() ==> s@.subrange(0, p@.len() as int) =~= s@.take(p@.len() as int));
    matches_at(s, p, 0)
}

pub fn contains(s: &[u8], p: &[u8]) -> (r: bool)
    ensures
        r == spec_contains(s@, p@),
{
    if p.len() == 0 || p.len() > s.len() {
        return false;
    }
    let mut i: usize = 0;
    while i <= s.len() - p.len()
        invariant
            0 < p@.len() <= s@.len(),
            i <= s@.len() - p@.len() + 1,
            forall|k: int| 0 <= k < i ==> !#[trigger] spec_matches_at(s@, p@, k),
        decreases s@.len() + 1 - i,
    {
        if matches_at(s, p, i) {
            assert(spec_matches_at(s@, p@, i as int));
            return true;
        }
        i += 1;
    }
    false
}

} // verus!

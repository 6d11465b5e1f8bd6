//! Text functions on `&str` and `String`, each proved against its model in
//! [`crate::chars`].

use vstd::prelude::*;
use crate::chars;

verus! {

/// `String::push`: appends one character.
pub assume_specification[ String::push ](s: &mut String, c: char)
    ensures
        final(s)@ == old(s)@.push(c),
;

/// What `{:?}` makes of a text.
pub uninterp spec fn quoted_debug(s: Seq<char>) -> Seq<char>;

/// `str`'s `Debug`: the text between quotes, with its special characters
/// escaped; a function of the text.
#[verifier::external_body]
pub(crate) fn debug(s: &str) -> (r: String)
    ensures
        r@ == quoted_debug(s@),
{
    format!("{:?}", s)
}

/// Anything that can be handed over as text.
pub trait IntoText: Sized {
    spec fn text(&self) -> Seq<char>;

    fn into_text(self) -> (r: String)
        ensures
            r@ == self.text(),
    ;
}

impl IntoText for String {
    open spec fn text(&self) -> Seq<char> {
        self@
    }

    fn into_text(self) -> (r: String) {
        self
    }
}

impl<'a> IntoText for &'a str {
    open spec fn text(&self) -> Seq<char> {
        self@
    }

    fn into_text(self) -> (r: String) {
        self.to_owned()
    }
}

impl<'a> IntoText for &'a String {
    open spec fn text(&self) -> Seq<char> {
        self@
    }

    fn into_text(self) -> (r: String) {
        self.clone()
    }
}

pub fn is_space(c: char) -> (r: bool)
    ensures
        r == chars::is_space(c),
{
    let n: u32 = c as u32;
    (0x09 <= n && n <= 0x0d) || n == 0x20 || n == 0x85 || n == 0xa0 || n == 0x1680 || (0x2000 <= n
        && n <= 0x200a) || n == 0x2028 || n == 0x2029 || n == 0x202f || n == 0x205f || n == 0x3000
}

pub fn is_control(c: char) -> (r: bool)
    ensures
        r == chars::is_control(c),
{
    let n: u32 = c as u32;
    n <= 0x1f || (0x7f <= n && n <= 0x9f)
}

pub fn is_digit(c: char) -> (r: bool)
    ensures
        r == chars::is_digit(c),
{
    let n: u32 = c as u32;
    0x30 <= n && n <= 0x39
}

pub fn is_ascii_alnum(c: char) -> (r: bool)
    ensures
        r == chars::is_ascii_alnum(c),
{
    let n: u32 = c as u32;
    (0x30 <= n && n <= 0x39) || (0x41 <= n && n <= 0x5a) || (0x61 <= n && n <= 0x7a)
}

pub fn lower1(c: char) -> (r: char)
    ensures
        r == chars::lower1(c),
{
    let n: u32 = c as u32;
    if 0x41 <= n && n <= 0x5a {
        (c as u8 + 32) as char
    } else {
        c
    }
}

pub fn upper1(c: char) -> (r: char)
    ensures
        r == chars::upper1(c),
{
    let n: u32 = c as u32;
    if 0x61 <= n && n <= 0x7a {
        (c as u8 - 32) as char
    } else {
        c
    }
}

/// The characters of `s`.
pub fn to_chars(s: &str) -> (r: Vec<char>)
    ensures
        r@ == s@,
{
    let mut v: Vec<char> = Vec::new();
    for c in it: s.chars()
        invariant
            it.seq() == s@,
            v@ == it.seq().take(it.index() as int),
    {
        v.push(c);
    }
    assert(s@.take(s@.len() as int) =~= s@);
    v
}

/// The characters `i..j` as a string.
pub fn slice(v: &Vec<char>, i: usize, j: usize) -> (r: String)
    requires
        i <= j <= v@.len(),
    ensures
        r@ == v@.subrange(i as int, j as int),
{
    let mut r = String::new();
    let mut k: usize = i;
    while k < j
        invariant
            i <= k <= j <= v@.len(),
            r@ == v@.subrange(i as int, k as int),
        decreases j - k,
    {
        r.push(v[k]);
        k += 1;
        assert(v@.subrange(i as int, k as int) =~= v@.subrange(i as int, k - 1).push(v@[k - 1]));
    }
    r
}

/// Appends `t` to `s`.
pub fn push_str(s: &mut String, t: &str)
    ensures
        final(s)@ == old(s)@ + t@,
{
    s.append(t);
}

/// `a` followed by `b`.
pub fn cat(a: &str, b: &str) -> (r: String)
    ensures
        r@ == a@ + b@,
{
    let mut r = a.to_owned();
    r.append(b);
    r
}

/// `a`, `b`, `c` one after the other.
pub fn cat3(a: &str, b: &str, c: &str) -> (r: String)
    ensures
        r@ == a@ + b@ + c@,
{
    let mut r = cat(a, b);
    r.append(c);
    r
}

/// How many bytes `s` takes in UTF-8.
pub fn len(s: &str) -> (r: usize)
    ensures
        r == chars::byte_len(s@),
{
    proof {
        chars::lemma_byte_len_is_encoding(s@);
    }
    s.as_bytes().len()
}

pub fn is_empty(s: &str) -> (r: bool)
    ensures
        r == (s@.len() == 0),
{
    let n: usize = len(s);
    proof {
        chars::lemma_byte_len_lower_bound(s@);
    }
    n == 0
}

/// The two vectors hold the same characters.
pub fn chars_eq(a: &Vec<char>, b: &Vec<char>) -> (r: bool)
    ensures
        r == (a@ == b@),
{
    if a.len() != b.len() {
        return false;
    }
    let mut i: usize = 0;
    while i < a.len()
        invariant
            i <= a@.len(),
            a@.len() == b@.len(),
            forall|k: int| 0 <= k < i ==> a@[k] == b@[k],
        decreases a@.len() - i,
    {
        if a[i] != b[i] {
            return false;
        }
        i += 1;
    }
    assert(a@ =~= b@);
    true
}

/// The same text.
pub fn eq(a: &str, b: &str) -> (r: bool)
    ensures
        r == (a@ == b@),
{
    let x = to_chars(a);
    let y = to_chars(b);
    chars_eq(&x, &y)
}

/// The text holds the character.
pub fn contains_char(s: &str, c: char) -> (r: bool)
    ensures
        r == s@.contains(c),
{
    let v = to_chars(s);
    let mut i: usize = 0;
    while i < v.len()
        invariant
            i <= v@.len(),
            v@ == s@,
            forall|k: int| 0 <= k < i ==> v@[k] != c,
        decreases v@.len() - i,
    {
        if v[i] == c {
            assert(s@[i as int] == c);
            return true;
        }
        i += 1;
    }
    false
}

/// The same optional text.
pub fn opt_eq(a: &Option<String>, b: &Option<String>) -> (r: bool)
    ensures
        r == (chars::opt(*a) == chars::opt(*b)),
{
    match (a, b) {
        (Some(x), Some(y)) => eq(x, y),
        (None, None) => true,
        _ => false,
    }
}

/// A copy of an optional text.
pub fn opt_clone(a: &Option<String>) -> (r: Option<String>)
    ensures
        chars::opt(r) == chars::opt(*a),
{
    match a {
        Some(x) => Some(x.clone()),
        None => None,
    }
}

pub fn lower(s: &str) -> (r: String)
    ensures
        r@ == chars::lower(s@),
{
    let v = to_chars(s);
    let mut r = String::new();
    let mut i: usize = 0;
    while i < v.len()
        invariant
            i <= v@.len(),
            r@ == chars::lower(v@.take(i as int)),
        decreases v@.len() - i,
    {
        r.push(lower1(v[i]));
        i += 1;
        assert(chars::lower(v@.take(i as int)) =~= chars::lower(v@.take(i - 1)).push(
            chars::lower1(v@[i - 1]),
        ));
    }
    assert(v@.take(v@.len() as int) =~= s@);
    r
}

pub fn upper(s: &str) -> (r: String)
    ensures
        r@ == chars::upper(s@),
{
    let v = to_chars(s);
    let mut r = String::new();
    let mut i: usize = 0;
    while i < v.len()
        invariant
            i <= v@.len(),
            r@ == chars::upper(v@.take(i as int)),
        decreases v@.len() - i,
    {
        r.push(upper1(v[i]));
        i += 1;
        assert(chars::upper(v@.take(i as int)) =~= chars::upper(v@.take(i - 1)).push(
            chars::upper1(v@[i - 1]),
        ));
    }
    assert(v@.take(v@.len() as int) =~= s@);
    r
}

fn skip_space(v: &Vec<char>) -> (i: usize)
    ensures
        i <= v@.len(),
        chars::trim_start(v@) == v@.skip(i as int),
{
    let mut i: usize = 0;
    assert(v@.skip(0) =~= v@);
    while i < v.len() && is_space(v[i])
        invariant
            i <= v@.len(),
            chars::trim_start(v@) == chars::trim_start(v@.skip(i as int)),
        decreases v@.len() - i,
    {
        assert(v@.skip(i as int).skip(1) =~= v@.skip(i + 1));
        i += 1;
    }
    i
}

fn drop_space(v: &Vec<char>, i: usize) -> (j: usize)
    requires
        i <= v@.len(),
    ensures
        i <= j <= v@.len(),
        chars::trim_end(v@.skip(i as int)) == v@.subrange(i as int, j as int),
{
    let mut j: usize = v.len();
    assert(v@.subrange(i as int, j as int) =~= v@.skip(i as int));
    while i < j && is_space(v[j - 1])
        invariant
            i <= j <= v@.len(),
            chars::trim_end(v@.skip(i as int)) == chars::trim_end(v@.subrange(i as int, j as int)),
        decreases j,
    {
        assert(v@.subrange(i as int, j as int).drop_last() =~= v@.subrange(i as int, j - 1));
        j -= 1;
    }
    j
}

pub fn trim(s: &str) -> (r: String)
    ensures
        r@ == chars::trim(s@),
{
    let v = to_chars(s);
    let i: usize = skip_space(&v);
    let j: usize = drop_space(&v, i);
    slice(&v, i, j)
}

pub fn trim_start(s: &str) -> (r: String)
    ensures
        r@ == chars::trim_start(s@),
{
    let v = to_chars(s);
    let i: usize = skip_space(&v);
    assert(v@.subrange(i as int, v@.len() as int) =~= v@.skip(i as int));
    slice(&v, i, v.len())
}

pub fn trim_end(s: &str) -> (r: String)
    ensures
        r@ == chars::trim_end(s@),
{
    let v = to_chars(s);
    let j: usize = drop_space(&v, 0);
    assert(v@.skip(0) =~= v@);
    slice(&v, 0, j)
}

pub fn is_blank(s: &str) -> (r: bool)
    ensures
        r == chars::is_blank(s@),
{
    let t = trim(s);
    is_empty(&t)
}

pub fn trim_start_char(s: &str, c: char) -> (r: String)
    ensures
        r@ == chars::trim_start_char(s@, c),
{
    let v = to_chars(s);
    let mut i: usize = 0;
    assert(v@.skip(0) =~= v@);
    while i < v.len() && v[i] == c
        invariant
            i <= v@.len(),
            chars::trim_start_char(v@, c) == chars::trim_start_char(v@.skip(i as int), c),
        decreases v@.len() - i,
    {
        assert(v@.skip(i as int).skip(1) =~= v@.skip(i + 1));
        i += 1;
    }
    assert(v@.subrange(i as int, v@.len() as int) =~= v@.skip(i as int));
    slice(&v, i, v.len())
}

pub fn trim_end_char(s: &str, c: char) -> (r: String)
    ensures
        r@ == chars::trim_end_char(s@, c),
{
    let v = to_chars(s);
    let mut j: usize = v.len();
    assert(v@.take(j as int) =~= v@);
    while 0 < j && v[j - 1] == c
        invariant
            j <= v@.len(),
            chars::trim_end_char(v@, c) == chars::trim_end_char(v@.take(j as int), c),
        decreases j,
    {
        assert(v@.take(j as int).drop_last() =~= v@.take(j - 1));
        j -= 1;
    }
    assert(v@.subrange(0, j as int) =~= v@.take(j as int));
    slice(&v, 0, j)
}

/// `p` stands in `v` at position `i`.
pub fn matches_at(v: &Vec<char>, p: &Vec<char>, i: usize) -> (r: bool)
    requires
        i <= v@.len(),
    ensures
        r == chars::matches_at(v@, p@, i as int),
{
    if p.len() > v.len() - i {
        return false;
    }
    let mut k: usize = 0;
    while k < p.len()
        invariant
            k <= p@.len(),
            i + p@.len() <= v.len(),
            forall|m: int| 0 <= m < k ==> v@[i + m] == p@[m],
        decreases p@.len() - k,
    {
        if v[i + k] != p[k] {
            assert(v@.subrange(i as int, i + p@.len())[k as int] != p@[k as int]);
            return false;
        }
        k += 1;
    }
    assert(v@.subrange(i as int, i + p@.len()) =~= p@);
    true
}

/// The first position at or after `from` where `p` stands in `v`.
pub fn find_chars(v: &Vec<char>, p: &Vec<char>, from: usize) -> (r: Option<usize>)
    requires
        from <= v@.len(),
    ensures
        r matches Some(i) ==> chars::find_from(v@, p@, from as int) == Some(i as int) && from <= i
            && i + p@.len() <= v.len(),
        r is None ==> chars::find_from(v@, p@, from as int) is None,
{
    let mut i: usize = from;
    loop
        invariant
            from <= i <= v@.len(),
            chars::find_from(v@, p@, from as int) == chars::find_from(v@, p@, i as int),
        decreases v@.len() - i,
    {
        if p.len() > v.len() - i {
            return None;
        }
        if matches_at(v, p, i) {
            return Some(i);
        }
        if i == v.len() {
            assert(v@.subrange(i as int, i + p@.len()) =~= p@);
            return None;
        }
        i += 1;
    }
}

/// The first position of `p` in `s`, counted in characters.
pub fn find(s: &str, p: &str) -> (r: Option<usize>)
    ensures
        r matches Some(i) ==> chars::find(s@, p@) == Some(i as int) && i + p@.len() <= s@.len(),
        r is None ==> chars::find(s@, p@) is None,
{
    let v = to_chars(s);
    let q = to_chars(p);
    find_chars(&v, &q, 0)
}

pub fn contains(s: &str, p: &str) -> (r: bool)
    ensures
        r == chars::contains(s@, p@),
{
    find(s, p).is_some()
}

/// The last position of `p` in `s`, counted in characters.
pub fn rfind(s: &str, p: &str) -> (r: Option<usize>)
    ensures
        r matches Some(i) ==> chars::rfind(s@, p@) == Some(i as int) && i + p@.len() <= s@.len(),
        r is None ==> chars::rfind(s@, p@) is None,
{
    let v = to_chars(s);
    let q = to_chars(p);
    if q.len() > v.len() {
        return None;
    }
    let mut i: usize = v.len() - q.len();
    loop
        invariant
            i + q@.len() <= v@.len(),
            v@ == s@,
            q@ == p@,
            chars::rfind(s@, p@) == chars::rfind_from(v@, q@, i as int),
        decreases i,
    {
        if matches_at(&v, &q, i) {
            return Some(i);
        }
        if i == 0 {
            assert(chars::rfind_from(v@, q@, -1) is None);
            return None;
        }
        i -= 1;
    }
}

pub fn starts_with(s: &str, p: &str) -> (r: bool)
    ensures
        r == chars::starts_with(s@, p@),
{
    let v = to_chars(s);
    let q = to_chars(p);
    assert(q@.len() <= v@.len() ==> v@.subrange(0, q@.len() as int) =~= v@.take(q@.len() as int));
    matches_at(&v, &q, 0)
}

pub fn ends_with(s: &str, p: &str) -> (r: bool)
    ensures
        r == chars::ends_with(s@, p@),
{
    let v = to_chars(s);
    let q = to_chars(p);
    if q.len() > v.len() {
        return false;
    }
    assert(v@.subrange(v@.len() - q@.len(), v@.len() as int) =~= v@.skip(v@.len() - q@.len()));
    matches_at(&v, &q, v.len() - q.len())
}

/// What follows `p`, where `s` starts with it.
pub fn strip_prefix(s: &str, p: &str) -> (r: Option<String>)
    ensures
        r is Some == chars::starts_with(s@, p@),
        r matches Some(t) ==> t@ == s@.skip(p@.len() as int),
{
    if !starts_with(s, p) {
        return None;
    }
    let v = to_chars(s);
    let q = to_chars(p);
    assert(v@.subrange(q@.len() as int, v@.len() as int) =~= v@.skip(q@.len() as int));
    Some(slice(&v, q.len(), v.len()))
}

/// What precedes `p`, where `s` ends with it.
pub fn strip_suffix(s: &str, p: &str) -> (r: Option<String>)
    ensures
        r is Some == chars::ends_with(s@, p@),
        r matches Some(t) ==> t@ == s@.take(s@.len() - p@.len()),
{
    if !ends_with(s, p) {
        return None;
    }
    let v = to_chars(s);
    let q = to_chars(p);
    assert(v@.subrange(0, v@.len() - q@.len()) =~= v@.take(v@.len() - q@.len()));
    Some(slice(&v, 0, v.len() - q.len()))
}

/// The first `n` characters.
pub fn take(s: &str, n: usize) -> (r: String)
    requires
        n <= s@.len(),
    ensures
        r@ == s@.take(n as int),
{
    let v = to_chars(s);
    assert(v@.subrange(0, n as int) =~= v@.take(n as int));
    slice(&v, 0, n)
}

/// All but the first `n` characters.
pub fn skip(s: &str, n: usize) -> (r: String)
    requires
        n <= s@.len(),
    ensures
        r@ == s@.skip(n as int),
{
    let v = to_chars(s);
    assert(v@.subrange(n as int, v@.len() as int) =~= v@.skip(n as int));
    slice(&v, n, v.len())
}

pub fn split_once(s: &str, p: &str) -> (r: Option<(String, String)>)
    ensures
        r is Some == chars::split_once(s@, p@) is Some,
        r matches Some(t) ==> chars::split_once(s@, p@) == Some((t.0@, t.1@)),
{
    let v = to_chars(s);
    let q = to_chars(p);
    match find_chars(&v, &q, 0) {
        Some(i) => {
            assert(v@.subrange(0, i as int) =~= v@.take(i as int));
            assert(v@.subrange(i + q@.len(), v@.len() as int) =~= v@.skip(i + q@.len()));
            Some((slice(&v, 0, i), slice(&v, i + q.len(), v.len())))
        },
        None => None,
    }
}

proof fn lemma_find_shift(s: Seq<char>, p: Seq<char>, k: int, i: int)
    requires
        0 <= k <= i,
        k <= s.len(),
    ensures
        chars::find_from(s, p, i) == (match chars::find_from(s.skip(k), p, i - k) {
            Some(j) => Some(j + k),
            None => None::<int>,
        }),
    decreases s.len() - i + 1,
{
    if i + p.len() <= s.len() {
        assert(s.skip(k).subrange(i - k, i - k + p.len()) =~= s.subrange(i, i + p.len()));
        if !chars::matches_at(s, p, i) {
            lemma_find_shift(s, p, k, i + 1);
        }
    }
}

/// The pieces between the occurrences of a pattern.
pub fn split(s: &str, p: &str) -> (r: Vec<String>)
    ensures
        chars::texts(r@) == chars::split(s@, p@),
{
    let v = to_chars(s);
    let q = to_chars(p);
    let mut out: Vec<String> = Vec::new();
    if q.len() == 0 {
        let whole = s.to_owned();
        out.push(whole);
        assert(v@.subrange(0, 0) =~= q@);
        assert(chars::texts(out@) =~= seq![s@]);
        return out;
    }
    let mut at: usize = 0;
    assert(v@.skip(0) =~= v@);
    assert(chars::texts(out@) + chars::split(v@, q@) =~= chars::split(v@, q@));
    loop
        invariant
            q@.len() > 0,
            at <= v.len(),
            chars::texts(out@) + chars::split(v@.skip(at as int), q@) == chars::split(v@, q@),
            v@ == s@,
            q@ == p@,
        decreases v@.len() - at,
    {
        let ghost rest = v@.skip(at as int);
        let ghost before = out@;
        proof {
            lemma_find_shift(v@, q@, at as int, at as int);
        }
        match find_chars(&v, &q, at) {
            Some(i) => {
                let piece = slice(&v, at, i);
                proof {
                    assert(piece@ =~= rest.take(i - at));
                    assert(rest.skip(i - at + q@.len()) =~= v@.skip(i + q@.len()));
                    chars::lemma_texts_push(before, piece);
                    assert(chars::texts(before) + (seq![piece@] + chars::split(
                        v@.skip(i + q@.len()),
                        q@,
                    )) =~= chars::texts(before).push(piece@) + chars::split(
                        v@.skip(i + q@.len()),
                        q@,
                    ));
                }
                out.push(piece);
                at = i + q.len();
            },
            None => {
                let piece = slice(&v, at, v.len());
                proof {
                    assert(piece@ =~= rest);
                    chars::lemma_texts_push(before, piece);
                    assert(chars::texts(before) + seq![piece@] =~= chars::texts(before).push(
                        piece@,
                    ));
                }
                out.push(piece);
                return out;
            },
        }
    }
}

/// The lines of a text.
pub fn lines(s: &str) -> (r: Vec<String>)
    ensures
        chars::texts(r@) == chars::lines(s@),
{
    let v = to_chars(s);
    let mut out: Vec<String> = Vec::new();
    let mut at: usize = 0;
    assert(v@.skip(0) =~= v@);
    assert(chars::texts(out@) + chars::lines(v@) =~= chars::lines(v@));
    while at < v.len()
        invariant
            at <= v@.len(),
            v@ == s@,
            chars::texts(out@) + chars::lines(v@.skip(at as int)) == chars::lines(v@),
        decreases v@.len() - at,
    {
        let ghost rest = v@.skip(at as int);
        let ghost before = out@;
        let mut i: usize = at;
        while i < v.len() && v[i] != '\n'
            invariant
                at <= i <= v@.len(),
                rest == v@.skip(at as int),
                forall|k: int| 0 <= k < i - at ==> #[trigger] rest[k] != '\n',
            decreases v@.len() - i,
        {
            i += 1;
        }
        proof {
            chars::lemma_line_len_at(rest, i - at);
        }
        if i < v.len() {
            let end: usize = if i > at && v[i - 1] == '\r' {
                i - 1
            } else {
                i
            };
            let piece = slice(&v, at, end);
            proof {
                assert(rest.take(i - at) =~= v@.subrange(at as int, i as int));
                assert(piece@ =~= chars::strip_cr(rest.take(i - at)));
                assert(rest.skip(i - at + 1) =~= v@.skip(i + 1));
                chars::lemma_texts_push(before, piece);
                assert(chars::texts(before) + (seq![piece@] + chars::lines(v@.skip(i + 1)))
                    =~= chars::texts(before).push(piece@) + chars::lines(v@.skip(i + 1)));
            }
            out.push(piece);
            at = i + 1;
        } else {
            let piece = slice(&v, at, i);
            proof {
                assert(piece@ =~= rest);
                chars::lemma_texts_push(before, piece);
                assert(v@.skip(i as int) =~= Seq::<char>::empty());
                assert(chars::texts(before) + seq![piece@] =~= chars::texts(before).push(piece@)
                    + chars::lines(v@.skip(i as int)));
            }
            out.push(piece);
            at = i;
        }
    }
    assert(v@.skip(at as int) =~= Seq::<char>::empty());
    assert(chars::texts(out@) + chars::lines(v@.skip(at as int)) =~= chars::texts(out@));
    out
}

/// The words of a text.
pub fn words(s: &str) -> (r: Vec<String>)
    ensures
        chars::texts(r@) == chars::words(s@),
{
    let v = to_chars(s);
    let mut out: Vec<String> = Vec::new();
    let mut at: usize = 0;
    assert(v@.skip(0) =~= v@);
    assert(chars::texts(out@) + chars::words(v@) =~= chars::words(v@));
    while at < v.len()
        invariant
            at <= v@.len(),
            v@ == s@,
            chars::texts(out@) + chars::words(v@.skip(at as int)) == chars::words(v@),
        decreases v@.len() - at,
    {
        let ghost rest = v@.skip(at as int);
        let ghost before = out@;
        if is_space(v[at]) {
            assert(rest.skip(1) =~= v@.skip(at + 1));
            at += 1;
        } else {
            let mut i: usize = at;
            while i < v.len() && !is_space(v[i])
                invariant
                    at <= i <= v@.len(),
                    rest == v@.skip(at as int),
                    forall|k: int| 0 <= k < i - at ==> !chars::is_space(#[trigger] rest[k]),
                decreases v@.len() - i,
            {
                i += 1;
            }
            let piece = slice(&v, at, i);
            proof {
                if i == at {
                    assert(chars::is_space(v@[at as int]));
                }
                chars::lemma_word_len_at(rest, i - at);
                assert(rest.take(i - at) =~= piece@);
                assert(rest.skip(i - at) =~= v@.skip(i as int));
                chars::lemma_texts_push(before, piece);
                assert(chars::texts(before) + (seq![piece@] + chars::words(v@.skip(i as int)))
                    =~= chars::texts(before).push(piece@) + chars::words(v@.skip(i as int)));
            }
            out.push(piece);
            at = i;
        }
    }
    assert(v@.skip(at as int) =~= Seq::<char>::empty());
    assert(chars::texts(out@) + chars::words(v@.skip(at as int)) =~= chars::texts(out@));
    out
}

/// The parts in order, with `sep` between neighbours.
pub fn join(parts: &Vec<String>, sep: &str) -> (r: String)
    ensures
        r@ == chars::join(chars::texts(parts@), sep@),
{
    let ghost t = chars::texts(parts@);
    let mut out = String::new();
    let mut i: usize = 0;
    while i < parts.len()
        invariant
            i <= parts@.len(),
            t == chars::texts(parts@),
            out@ == chars::join(t.take(i as int), sep@),
        decreases parts@.len() - i,
    {
        if i > 0 {
            out.append(sep);
        }
        out.append(parts[i].as_str());
        i += 1;
        proof {
            assert(t.take(i as int).drop_last() =~= t.take(i - 1));
            assert(t.take(i as int).last() == parts@[i - 1]@);
            if i == 1 {
                assert(out@ =~= t[0]);
                assert(t.take(1)[0] == t[0]);
            }
        }
    }
    assert(t.take(parts@.len() as int) =~= t);
    out
}

pub fn replace(s: &str, p: &str, r: &str) -> (out: String)
    ensures
        out@ == chars::replace(s@, p@, r@),
{
    let parts = split(s, p);
    join(&parts, r)
}

/// `n` copies of `s`.
pub fn repeat(s: &str, n: usize) -> (r: String)
    ensures
        r@ == chars::repeat(s@, n as nat),
{
    let mut out = String::new();
    let mut i: usize = 0;
    while i < n
        invariant
            i <= n,
            out@ == chars::repeat(s@, i as nat),
        decreases n - i,
    {
        out.append(s);
        i += 1;
    }
    out
}

/// `n` in decimal.
pub fn decimal(n: u64) -> (r: String)
    ensures
        r@ == chars::decimal(n as nat),
    decreases n,
{
    let d: u8 = 48 + (n % 10) as u8;
    let mut out = if n < 10 {
        String::new()
    } else {
        decimal(n / 10)
    };
    out.push(d as char);
    assert(n < 10 ==> out@ =~= seq![chars::digit(n as nat)]);
    out
}

proof fn lemma_value_monotone(s: Seq<char>, n: int)
    requires
        chars::all_digits(s),
        0 <= n <= s.len(),
    ensures
        chars::value(s.take(n)) <= chars::value(s),
    decreases s.len(),
{
    if n == s.len() {
        assert(s.take(n) =~= s);
    } else {
        assert(s.drop_last().take(n) =~= s.take(n));
        assert(chars::is_digit(s.last()));
        assert forall|i: int| 0 <= i < s.drop_last().len() implies chars::is_digit(
            #[trigger] s.drop_last()[i],
        ) by {
            assert(chars::is_digit(s[i]));
        }
        lemma_value_monotone(s.drop_last(), n);
    }
}

/// An unsigned decimal number no larger than `max`.
pub fn parse_unsigned(s: &str, max: u32) -> (r: Option<u32>)
    ensures
        r matches Some(n) ==> chars::parse_unsigned(s@, max as nat) == Some(n as nat),
        r is None ==> chars::parse_unsigned(s@, max as nat) is None,
{
    let all = to_chars(s);
    let start: usize = if all.len() > 0 && all[0] == '+' {
        1
    } else {
        0
    };
    let ghost d = chars::strip_plus(s@);
    assert(d =~= all@.skip(start as int));
    if start == all.len() {
        return None;
    }
    let mut i: usize = start;
    let mut acc: u32 = 0;
    while i < all.len()
        invariant
            start <= i <= all@.len(),
            d == all@.skip(start as int),
            forall|k: int| 0 <= k < i - start ==> chars::is_digit(#[trigger] d[k]),
            acc <= max,
            acc == chars::value(d.take(i - start)),
            d == chars::strip_plus(s@),
        decreases all@.len() - i,
    {
        let c: char = all[i];
        assert(c == d[i - start]);
        if !is_digit(c) {
            return None;
        }
        let step: u64 = acc as u64 * 10 + (c as u32 - 0x30) as u64;
        i += 1;
        proof {
            assert(d.take(i - start).drop_last() =~= d.take(i - 1 - start));
            assert(d.take(i - start).last() == c);
            assert(step == chars::value(d.take(i - start)));
            if chars::all_digits(d) {
                lemma_value_monotone(d, i - start);
            }
        }
        if step > max as u64 {
            return None;
        }
        acc = step as u32;
    }
    assert(d.take(d.len() as int) =~= d);
    Some(acc)
}

/// `a` comes before `b` in the order of their characters.
pub fn before(a: &str, b: &str) -> (r: bool)
    ensures
        r == chars::before(a@, b@),
{
    let x = to_chars(a);
    let y = to_chars(b);
    let mut i: usize = 0;
    assert(x@.skip(0) =~= x@ && y@.skip(0) =~= y@);
    while i < x.len() && i < y.len()
        invariant
            i <= x@.len(),
            i <= y@.len(),
            x@ == a@,
            y@ == b@,
            chars::before(a@, b@) == chars::before(x@.skip(i as int), y@.skip(i as int)),
        decreases x@.len() - i,
    {
        assert(x@.skip(i as int).skip(1) =~= x@.skip(i + 1));
        assert(y@.skip(i as int).skip(1) =~= y@.skip(i + 1));
        if x[i] != y[i] {
            return (x[i] as u32) < (y[i] as u32);
        }
        i += 1;
    }
    i < y.len()
}

} // verus!

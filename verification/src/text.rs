//! Text primitives shared by the whole crate: moving between `&str`,
//! character vectors and byte views, and the UTF-8 facts the byte-level
//! source scanners rely on.

use vstd::prelude::*;
use vstd::string::*;
use vstd::utf8::*;

verus! {

broadcast use {encode_utf8_valid_utf8, encode_utf8_decode_utf8};

/// The UTF-8 bytes of a character sequence (what `str::as_bytes` yields).
pub open spec fn utf8(s: Seq<char>) -> Seq<u8> {
    encode_utf8(s)
}

/// Byte `i` of `bytes` starts a character (or lies at or past the end):
/// it is not a continuation byte of the form `10xx_xxxx`.
pub open spec fn char_boundary(bytes: Seq<u8>, i: int) -> bool {
    i >= bytes.len() || (bytes[i] & 0xC0u8) != 0x80u8
}

/// The encoding is injective: equal bytes mean equal text.
pub proof fn lemma_utf8_injective(a: Seq<char>, b: Seq<char>)
    ensures
        utf8(a) == utf8(b) <==> a == b,
{
    if utf8(a) == utf8(b) {
        assert(decode_utf8(encode_utf8(a)) == a);
        assert(decode_utf8(encode_utf8(b)) == b);
    }
}

/// The characters of `s`, in order.
pub fn chars_of(s: &str) -> (v: Vec<char>)
    ensures
        v@ == s@,
{
    let mut v: Vec<char> = Vec::new();
    for c in it: s.chars()
        invariant
            v@ == it.seq().take(it.index() as int),
    {
        v.push(c);
    }
    v
}

/// `String::push`: appends one character.
#[verifier::external_body]
pub(crate) fn push_char(s: &mut String, c: char)
    ensures
        final(s)@ == old(s)@.push(c),
{
    s.push(c);
}

/// A `String` holding exactly the characters `v`.
pub fn string_of(v: &[char]) -> (s: String)
    ensures
        s@ == v@,
{
    let mut s = String::new();
    let mut i: usize = 0;
    while i < v.len()
        invariant
            i <= v.len(),
            s@ == v@.take(i as int),
        decreases v.len() - i,
    {
        push_char(&mut s, v[i]);
        i += 1;
        assert(v@.take(i as int) == v@.take(i - 1).push(v@[i - 1]));
    }
    assert(v@.take(v.len() as int) == v@);
    s
}

/// Append `t` to `s`.
pub fn push_str(s: &mut String, t: &str)
    ensures
        final(s)@ == old(s)@ + t@,
{
    s.append(t);
}

/// Character-wise equality of two slices.
pub fn chars_eq(a: &[char], b: &[char]) -> (r: bool)
    ensures
        r == (a@ == b@),
{
    if a.len() != b.len() {
        return false;
    }
    let mut i: usize = 0;
    while i < a.len()
        invariant
            a.len() == b.len(),
            i <= a.len(),
            forall|j: int| 0 <= j < i ==> a@[j] == b@[j],
        decreases a.len() - i,
    {
        if a[i] != b[i] {
            return false;
        }
        i += 1;
    }
    assert(a@ =~= b@);
    true
}

/// Text equality of two string slices.
pub fn str_eq(a: &str, b: &str) -> (r: bool)
    ensures
        r == (a@ == b@),
{
    let x = chars_of(a);
    let y = chars_of(b);
    chars_eq(x.as_slice(), y.as_slice())
}

/// `true` when `p` is a prefix of `s`.
pub fn chars_starts_with(s: &[char], p: &[char]) -> (r: bool)
    ensures
        r == (p@.len() <= s@.len() && s@.subrange(0, p@.len() as int) == p@),
{
    if p.len() > s.len() {
        return false;
    }
    let mut i: usize = 0;
    while i < p.len()
        invariant
            p.len() <= s.len(),
            i <= p.len(),
            forall|j: int| 0 <= j < i ==> s@[j] == p@[j],
        decreases p.len() - i,
    {
        if s[i] != p[i] {
            assert(s@.subrange(0, p@.len() as int)[i as int] != p@[i as int]);
            return false;
        }
        i += 1;
    }
    assert(s@.subrange(0, p@.len() as int) =~= p@);
    true
}

/// `true` when `p` is a suffix of `s`.
pub fn chars_ends_with(s: &[char], p: &[char]) -> (r: bool)
    ensures
        r == (p@.len() <= s@.len() && s@.subrange(s@.len() - p@.len(), s@.len() as int) == p@),
{
    if p.len() > s.len() {
        return false;
    }
    let off = s.len() - p.len();
    let mut i: usize = 0;
    while i < p.len()
        invariant
            p.len() <= s.len(),
            off == s.len() - p.len(),
            i <= p.len(),
            forall|j: int| 0 <= j < i ==> s@[off + j] == p@[j],
        decreases p.len() - i,
    {
        if s[off + i] != p[i] {
            assert(s@.subrange(off as int, s@.len() as int)[i as int] != p@[i as int]);
            return false;
        }
        i += 1;
    }
    assert(s@.subrange(off as int, s@.len() as int) =~= p@);
    true
}

/// A copy of `v[from..to]`.
pub fn chars_slice(v: &[char], from: usize, to: usize) -> (r: Vec<char>)
    requires
        from <= to <= v@.len(),
    ensures
        r@ == v@.subrange(from as int, to as int),
{
    let mut r: Vec<char> = Vec::new();
    let mut i = from;
    while i < to
        invariant
            from <= i <= to <= v@.len(),
            r@ == v@.subrange(from as int, i as int),
        decreases to - i,
    {
        r.push(v[i]);
        i += 1;
        assert(r@ =~= v@.subrange(from as int, i as int));
    }
    r
}

/// Append all of `b` to the vector `a`.
pub fn extend_chars(a: &mut Vec<char>, b: &[char])
    ensures
        final(a)@ == old(a)@ + b@,
{
    let mut i: usize = 0;
    while i < b.len()
        invariant
            i <= b.len(),
            a@ == old(a)@ + b@.take(i as int),
        decreases b.len() - i,
    {
        a.push(b[i]);
        i += 1;
        assert(a@ =~= old(a)@ + b@.take(i as int));
    }
    assert(b@.take(b.len() as int) =~= b@);
}

/// Index of the last occurrence of `c` in `v`, if any.
pub fn rfind_char(v: &[char], c: char) -> (r: Option<usize>)
    ensures
        match r {
            Some(i) => i < v@.len() && v@[i as int] == c && forall|j: int|
                i < j < v@.len() ==> v@[j] != c,
            None => forall|j: int| 0 <= j < v@.len() ==> v@[j] != c,
        },
{
    let mut i = v.len();
    while i > 0
        invariant
            i <= v@.len(),
            forall|j: int| i <= j < v@.len() ==> v@[j] != c,
        decreases i,
    {
        i -= 1;
        if v[i] == c {
            return Some(i);
        }
    }
    None
}

/// The UTF-8 view of a `str` is the encoding of its characters, and that
/// encoding is always valid.
pub proof fn lemma_str_bytes(s: &str)
    ensures
        s.spec_bytes() == utf8(s@),
        valid_utf8(utf8(s@)),
{
}

/// On valid UTF-8, vstd's boundary notion coincides with [`char_boundary`]
/// for every index up to the length.
pub proof fn lemma_boundary_agrees(bytes: Seq<u8>, i: int)
    requires
        valid_utf8(bytes),
        0 <= i <= bytes.len(),
    ensures
        is_char_boundary(bytes, i) == char_boundary(bytes, i),
{
    if i < bytes.len() {
        is_char_boundary_iff_not_is_continuation_byte(bytes, i);
        let b = bytes[i];
        assert(is_continuation_byte(b) <==> (b & 0xC0u8) == 0x80u8) by (bit_vector);
    } else {
        is_char_boundary_start_end_of_seq(bytes);
    }
}

/// The text of `source` between byte offsets `start` and `end`, provided
/// both offsets are in range and on character boundaries.
pub fn span_text(source: &str, start: usize, end: usize) -> (r: Option<String>)
    ensures
        r is Some <==> (start <= end <= utf8(source@).len() && char_boundary(utf8(source@), start as int)
            && char_boundary(utf8(source@), end as int)),
        r matches Some(t) ==> utf8(t@) == utf8(source@).subrange(start as int, end as int),
{
    let bytes = source.as_bytes();
    let ghost all = utf8(source@);
    proof {
        lemma_str_bytes(source);
    }
    if start > end || end > bytes.len() {
        return None;
    }
    proof {
        lemma_boundary_agrees(all, start as int);
        lemma_boundary_agrees(all, end as int);
    }
    if !source.is_char_boundary(start) || !source.is_char_boundary(end) {
        return None;
    }
    let (_, rest) = source.split_at(start);
    let ghost tail = all.subrange(start as int, all.len() as int);
    proof {
        valid_utf8_split(all, start as int);
        assert(rest.spec_bytes() == tail);
        lemma_boundary_agrees(tail, (end - start) as int);
        if end < all.len() {
            assert(tail[(end - start) as int] == all[end as int]);
        }
    }
    let (mid, _) = rest.split_at(end - start);
    assert(mid.spec_bytes() =~= all.subrange(start as int, end as int));
    Some(mid.to_owned())
}

/// The decimal digits of `n`.
pub open spec fn decimal(n: nat) -> Seq<char>
    decreases n,
{
    if n < 10 {
        seq![digit_char(n)]
    } else {
        decimal(n / 10).push(digit_char(n % 10))
    }
}

/// The character of a decimal digit.
pub open spec fn digit_char(d: nat) -> char {
    ((48 + d) as u8) as char
}

/// `n` written in decimal (what `{}` formats a `usize` as).
pub fn usize_text(n: usize) -> (r: String)
    ensures
        r@ == decimal(n as nat),
    decreases n,
{
    let d = (n % 10) as u8;
    let c = (48u8 + d) as char;
    assert(c == digit_char((n % 10) as nat));
    if n < 10 {
        let mut s = String::new();
        push_char(&mut s, c);
        assert(s@ =~= seq![c]);
        s
    } else {
        let mut s = usize_text(n / 10);
        push_char(&mut s, c);
        s
    }
}

/// What `{:?}` renders a string as: quoted, with Rust's escapes.
pub uninterp spec fn debug_quoted(s: Seq<char>) -> Seq<char>;

/// `format!("{:?}", s)`.
#[verifier::external_body]
pub(crate) fn debug_text(s: &str) -> (r: String)
    ensures
        r@ == debug_quoted(s@),
{
    format!("{s:?}")
}

} // verus!

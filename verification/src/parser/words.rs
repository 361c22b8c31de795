//! Text scans shared by the unused-import rules: a raw word-boundary
//! search over the whole file (comments and strings included), and the
//! line terminator after a statement.
//!
//! The search is deliberately not an AST usage analysis. A false "still
//! used" verdict keeps one dead import (harmless); a wrong "unused"
//! verdict deletes live code. Bytes `>= 0x80` count as identifier parts:
//! treating a possibly-mojibake neighbour as part of a bigger word can
//! only keep an import, never drop one.

use vstd::prelude::*;

verus! {

/// An identifier byte: ASCII letter or digit, `_`, `$`, or any byte of a
/// multi-byte character.
pub open spec fn is_ident_byte(b: u8) -> bool {
    (48 <= b <= 57) || (65 <= b <= 90) || (97 <= b <= 122) || b == 95 || b == 36 || b >= 128
}

/// `word` stands at `at` in `src` as a whole token: the bytes match and
/// neither neighbour is an identifier byte.
pub open spec fn word_at(src: Seq<u8>, word: Seq<u8>, at: int) -> bool {
    &&& 0 <= at && at + word.len() <= src.len()
    &&& src.subrange(at, at + word.len()) == word
    &&& (at == 0 || !is_ident_byte(src[at - 1]))
    &&& (at + word.len() == src.len() || !is_ident_byte(src[at + word.len()]))
}

/// A non-empty `word` occurs as a standalone token somewhere in `src`
/// without overlapping the skipped span `skip_start..skip_end`.
pub open spec fn word_occurs(src: Seq<u8>, word: Seq<u8>, skip_start: int, skip_end: int) -> bool {
    word.len() > 0 && exists|at: int| #[trigger] word_at(src, word, at) && !(at < skip_end && at + word.len() > skip_start)
}

/// The end of a statement extended over exactly one `\n` or `\r\n`.
pub open spec fn line_end(src: Seq<u8>, end: int) -> int {
    if 0 <= end && end + 1 < src.len() && src[end] == 13u8 && src[end + 1] == 10u8 {
        end + 2
    } else if 0 <= end && end < src.len() && src[end] == 10u8 {
        end + 1
    } else {
        end
    }
}

/// Whether `b` is an identifier byte.
pub fn ident_byte(b: u8) -> (r: bool)
    ensures
        r == is_ident_byte(b),
{
    (48u8 <= b && b <= 57u8) || (65u8 <= b && b <= 90u8) || (97u8 <= b && b <= 122u8) || b == 95u8 || b == 36u8
        || b >= 128u8
}

// Whether `word` sits at `at` in `src` as a whole token.
fn word_at_exec(src: &[u8], word: &[u8], at: usize) -> (r: bool)
    requires
        at + word@.len() <= src@.len(),
    ensures
        r == word_at(src@, word@, at as int),
{
    let n = src.len();
    let end = at + word.len();
    let mut k: usize = 0;
    while k < word.len()
        invariant
            end == at + word@.len(),
            end <= src@.len(),
            k <= word@.len(),
            forall|j: int| 0 <= j < k ==> src@[at + j] == word@[j],
        decreases word.len() - k,
    {
        if src[at + k] != word[k] {
            assert(src@.subrange(at as int, end as int)[k as int] != word@[k as int]);
            return false;
        }
        k += 1;
    }
    assert(src@.subrange(at as int, end as int) =~= word@);
    let before = at == 0 || !ident_byte(src[at - 1]);
    let after = end == src.len() || !ident_byte(src[end]);
    before && after
}

/// Whether `word` occurs as a standalone token of `src` outside the span
/// `skip_start..skip_end` (an occurrence overlapping the span never
/// counts).
pub fn occurs_outside(src: &[u8], word: &[u8], skip_start: usize, skip_end: usize) -> (r: bool)
    ensures
        r == word_occurs(src@, word@, skip_start as int, skip_end as int),
{
    if word.len() == 0 || word.len() > src.len() {
        proof {
            if word@.len() > 0 {
                assert forall|at: int| !word_at(src@, word@, at) by {}
            }
        }
        return false;
    }
    let n = src.len();
    let last = n - word.len();
    let mut at: usize = 0;
    while at <= last
        invariant
            last + word@.len() == src@.len(),
            src@.len() == n,
            word@.len() > 0,
            at <= last + 1,
            forall|j: int| 0 <= j < at ==> !(#[trigger] word_at(src@, word@, j) && !(j < skip_end && j + word@.len() > skip_start)),
        decreases last + 1 - at,
    {
        let overlaps = at < skip_end && at + word.len() > skip_start;
        if !overlaps && word_at_exec(src, word, at) {
            return true;
        }
        at += 1;
    }
    assert forall|j: int| #[trigger] word_at(src@, word@, j) implies (j < skip_end && j + word@.len() > skip_start) by {
        assert(j <= last);
    }
    false
}

/// The end of a statement ending at `end`, extended over one line
/// terminator (CRLF-aware).
pub fn line_end_of(src: &[u8], end: usize) -> (r: usize)
    ensures
        r == line_end(src@, end as int),
{
    if end < src.len() && src[end] == 13u8 && end + 1 < src.len() && src[end + 1] == 10u8 {
        end + 2
    } else if end < src.len() && src[end] == 10u8 {
        end + 1
    } else {
        end
    }
}

} // verus!

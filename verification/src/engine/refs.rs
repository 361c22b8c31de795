//! Non-import textual references to planned moves: report only.
//!
//! The import graph understands `import`/`export from`/`require` and
//! `import()`, but projects also name files from markdown links,
//! `package.json` fields, `jest.mock("./x")` strings and friends. Editing
//! those would need each format's semantics, so they are never touched;
//! what must not happen is a move that stays silent while a readme keeps
//! pointing at the old path. The scan runs on the same plan the apply step
//! consumes and reports every suspicious occurrence with its file and line.
//!
//! Matching is a boundary-checked substring search over plain tokens (the
//! moved path, its extension-less module form, the exact specifiers the
//! importers used, and the directory prefix of a batch move): `lib/sum`
//! matches `./lib/sum.ts` but not `lib/summary`. Occurrences inside the
//! plan's own rewrite spans are the import statements and are excluded.

use vstd::prelude::*;

use crate::engine::apply::git::{trim, trimmed};
use crate::engine::index::files::string_views;
use crate::engine::index::Index;
use crate::engine::plan::java::same_path;
use crate::engine::plan::specifier::{last_index_of, lemma_last_index_of};
use crate::engine::plan::{FileMove, MovePlan, Rewrite};
use crate::engine::{line_at, line_of, normalize_rel_path, rel_str};
use crate::map::TextMap;
use crate::order::{sort_stable, sorted_by, text_lt, texts};
use crate::parser::java::rules::unused_imports::slice_ok;
use crate::parser::ascii_lowercase;
use crate::path::{comps, extension, extension_of, file_name, file_name_of, normalized, rel_text, Comp};
use crate::text::{chars_eq, chars_of, chars_slice, lemma_str_bytes, push_str, rfind_char, span_text, string_of, utf8};

verus! {

/// One non-import occurrence of a moved path or specifier.
pub struct NonImportRef {
    /// Project-relative file containing the reference.
    pub file: String,
    /// 1-based line of the occurrence.
    pub line: usize,
    /// The matched token.
    pub token: String,
    /// Category of the token: `path`, `module`, `specifier` or `dir`
    /// (ranked in this order; one entry is kept per line).
    pub kind: &'static str,
    /// The matched line, trimmed and capped at 100 characters.
    pub text: String,
}

/// A reference as the contracts see it: file, line, token, kind, text.
pub type RefView = (Seq<char>, int, Seq<char>, Seq<char>, Seq<char>);

/// The view of a reference.
pub open spec fn ref_view(r: NonImportRef) -> RefView {
    (r.file@, r.line as int, r.token@, r.kind@, r.text@)
}

/// The views of a reference sequence.
pub open spec fn ref_views(s: Seq<NonImportRef>) -> Seq<RefView> {
    s.map_values(|r: NonImportRef| ref_view(r))
}

/// A search pattern: token and kind.
pub type Pattern = (Seq<char>, Seq<char>);

/// `out` with the pattern added, unless the token is a single byte (or
/// empty) or already present.
pub open spec fn add_pattern(out: Seq<Pattern>, tok: Seq<char>, kind: Seq<char>) -> Seq<Pattern> {
    if utf8(tok).len() > 1 && !(exists|k: int| 0 <= k < out.len() && (#[trigger] out[k]).0 == tok) {
        out.push((tok, kind))
    } else {
        out
    }
}

/// The patterns of the first `n` moved files: the path, and the path
/// without its extension.
pub open spec fn move_patterns(srcs: Seq<Seq<char>>, n: int) -> Seq<Pattern>
    decreases n,
{
    if n <= 0 {
        Seq::empty()
    } else {
        let path = rel_text(srcs[n - 1]);
        let out = add_pattern(move_patterns(srcs, n - 1), path, "path"@);
        match last_index_of(path, '.') {
            Some(k) => add_pattern(out, path.subrange(0, k), "module"@),
            None => out,
        }
    }
}

/// `base` with the specifiers of the first `n` rewrites added.
pub open spec fn specifier_patterns(base: Seq<Pattern>, olds: Seq<Seq<char>>, n: int) -> Seq<Pattern>
    decreases n,
{
    if n <= 0 {
        base
    } else {
        add_pattern(specifier_patterns(base, olds, n - 1), olds[n - 1], "specifier"@)
    }
}

/// The search tokens of a plan, in rank order; a directory move (a source
/// that is a directory, with several moves) adds the directory prefix.
pub open spec fn patterns_spec(plan: MovePlan, source_is_dir: bool) -> Seq<Pattern> {
    let srcs = plan.moves@.map_values(|m: FileMove| m.source@);
    let olds = plan.rewrites@.map_values(|r: Rewrite| r.old_text@);
    let b = specifier_patterns(move_patterns(srcs, srcs.len() as int), olds, olds.len() as int);
    if plan.moves@.len() > 1 && source_is_dir {
        add_pattern(b, rel_text(plan.source@) + "/"@, "dir"@)
    } else {
        b
    }
}

/// Some pattern of `ps` searches for `tok`.
pub open spec fn searches(ps: Seq<Pattern>, tok: Seq<char>) -> bool {
    exists|j: int| 0 <= j < ps.len() && (#[trigger] ps[j]).0 == tok
}

proof fn lemma_add_pattern_searches(out: Seq<Pattern>, tok: Seq<char>, kind: Seq<char>)
    ensures
        forall|t: Seq<char>| searches(out, t) ==> #[trigger] searches(add_pattern(out, tok, kind), t),
        utf8(tok).len() > 1 ==> searches(add_pattern(out, tok, kind), tok),
{
    let r = add_pattern(out, tok, kind);
    assert forall|t: Seq<char>| searches(out, t) implies #[trigger] searches(r, t) by {
        let j = choose|j: int| 0 <= j < out.len() && (#[trigger] out[j]).0 == t;
        assert(r[j] == out[j]);
    }
    if utf8(tok).len() > 1 && !searches(out, tok) {
        assert(r[out.len() as int].0 == tok);
    }
}

proof fn lemma_specifier_patterns_search(base: Seq<Pattern>, olds: Seq<Seq<char>>, n: int)
    requires
        0 <= n <= olds.len(),
    ensures
        forall|t: Seq<char>| searches(base, t) ==> #[trigger] searches(specifier_patterns(base, olds, n), t),
        forall|i: int| 0 <= i < n && utf8(#[trigger] olds[i]).len() > 1 ==> searches(specifier_patterns(base, olds, n), olds[i]),
    decreases n,
{
    if n > 0 {
        lemma_specifier_patterns_search(base, olds, n - 1);
        lemma_add_pattern_searches(specifier_patterns(base, olds, n - 1), olds[n - 1], "specifier"@);
    }
}

proof fn lemma_move_patterns_search(srcs: Seq<Seq<char>>, n: int)
    requires
        0 <= n <= srcs.len(),
    ensures
        forall|i: int| 0 <= i < n && utf8(rel_text(#[trigger] srcs[i])).len() > 1 ==> searches(move_patterns(srcs, n), rel_text(srcs[i])),
    decreases n,
{
    if n > 0 {
        lemma_move_patterns_search(srcs, n - 1);
        let path = rel_text(srcs[n - 1]);
        let prev = move_patterns(srcs, n - 1);
        lemma_add_pattern_searches(prev, path, "path"@);
        let out = add_pattern(prev, path, "path"@);
        match last_index_of(path, '.') {
            Some(k) => {
                lemma_add_pattern_searches(out, path.subrange(0, k), "module"@);
            },
            None => {},
        }
    }
}

/// The non-import search looks for every specifier an importer used for a
/// moved file (each rewrite's old text, `jest.mock('./sum')` and the like
/// still naming the old module) and for every moved file's path, whenever
/// the token is longer than one byte.
pub proof fn law_old_specifiers_and_paths_are_searched(plan: MovePlan, source_is_dir: bool)
    ensures
        forall|k: int| 0 <= k < plan.rewrites@.len() && utf8((#[trigger] plan.rewrites@[k]).old_text@).len() > 1
            ==> searches(patterns_spec(plan, source_is_dir), plan.rewrites@[k].old_text@),
        forall|m: int| 0 <= m < plan.moves@.len() && utf8(rel_text((#[trigger] plan.moves@[m]).source@)).len() > 1
            ==> searches(patterns_spec(plan, source_is_dir), rel_text(plan.moves@[m].source@)),
{
    let srcs = plan.moves@.map_values(|m: FileMove| m.source@);
    let olds = plan.rewrites@.map_values(|r: Rewrite| r.old_text@);
    let mp = move_patterns(srcs, srcs.len() as int);
    let b = specifier_patterns(mp, olds, olds.len() as int);
    lemma_move_patterns_search(srcs, srcs.len() as int);
    lemma_specifier_patterns_search(mp, olds, olds.len() as int);
    let ps = patterns_spec(plan, source_is_dir);
    assert(forall|t: Seq<char>| searches(b, t) ==> #[trigger] searches(ps, t)) by {
        if plan.moves@.len() > 1 && source_is_dir {
            lemma_add_pattern_searches(b, rel_text(plan.source@) + "/"@, "dir"@);
        }
    }
    assert forall|k: int| 0 <= k < plan.rewrites@.len() && utf8((#[trigger] plan.rewrites@[k]).old_text@).len() > 1
        implies searches(ps, plan.rewrites@[k].old_text@) by {
        assert(olds[k] == plan.rewrites@[k].old_text@);
    }
    assert forall|m: int| 0 <= m < plan.moves@.len() && utf8(rel_text((#[trigger] plan.moves@[m]).source@)).len() > 1
        implies searches(ps, rel_text(plan.moves@[m].source@)) by {
        assert(srcs[m] == plan.moves@[m].source@);
        assert(searches(mp, rel_text(srcs[m])));
    }
}

/// `tok` occurs in `src` at byte `at`.
pub open spec fn matches_at(src: Seq<u8>, tok: Seq<u8>, at: int) -> bool {
    0 <= at && at + tok.len() <= src.len() && src.subrange(at, at + tok.len()) == tok
}

/// The first match of a non-empty `tok` at or after `from` (`-1` when
/// none).
pub open spec fn next_match(src: Seq<u8>, tok: Seq<u8>, from: int) -> int
    decreases src.len() - from,
{
    if from < 0 || from >= src.len() || from + tok.len() > src.len() {
        -1
    } else if matches_at(src, tok, from) {
        from
    } else {
        next_match(src, tok, from + 1)
    }
}

/// [`next_match`] is `-1` or a match at or after `from`, and no earlier
/// offset from `from` on matches.
pub proof fn lemma_next_match(src: Seq<u8>, tok: Seq<u8>, from: int)
    ensures
        next_match(src, tok, from) == -1 || (from <= next_match(src, tok, from) && matches_at(src, tok, next_match(src, tok, from))),
        tok.len() > 0 && from >= 0 && next_match(src, tok, from) == -1 ==> forall|k: int| from <= k ==> !#[trigger] matches_at(src, tok, k),
        tok.len() > 0 && next_match(src, tok, from) >= 0 ==> forall|k: int| from <= k < next_match(src, tok, from) ==> !#[trigger] matches_at(src, tok, k),
    decreases src.len() - from,
{
    if from < 0 || from >= src.len() || from + tok.len() > src.len() {
        if tok.len() > 0 && from >= 0 {
            assert forall|k: int| from <= k implies !#[trigger] matches_at(src, tok, k) by {}
        }
    } else if !matches_at(src, tok, from) {
        lemma_next_match(src, tok, from + 1);
    }
}

/// A word byte: ASCII letter or digit, `_`, `$`, or any byte of a
/// multi-byte character.
pub open spec fn is_word_byte(b: u8) -> bool {
    (48 <= b <= 57) || (65 <= b <= 90) || (97 <= b <= 122) || b == 95 || b == 36 || b >= 128
}

/// The match at `at` stands alone: no word byte before it, and no word
/// byte, `-` or `_` after it.
pub open spec fn hit_ok(src: Seq<u8>, tok: Seq<u8>, at: int) -> bool {
    &&& (at == 0 || !is_word_byte(src[at - 1]))
    &&& !(at + tok.len() < src.len() && (is_word_byte(src[at + tok.len()]) || src[at + tok.len()] == 45u8
        || src[at + tok.len()] == 95u8))
}

/// The standalone occurrences of a non-empty token from `from` on; the
/// search resumes after each match.
pub open spec fn occurrences(src: Seq<u8>, tok: Seq<u8>, from: int) -> Seq<int>
    decreases src.len() - from,
{
    let at = next_match(src, tok, from);
    proof {
        lemma_next_match(src, tok, from);
    }
    if at < 0 || tok.len() == 0 || from < 0 {
        Seq::empty()
    } else {
        let rest = occurrences(src, tok, at + tok.len());
        if hit_ok(src, tok, at) {
            seq![at] + rest
        } else {
            rest
        }
    }
}

/// Offset `at` lies in one of the plan's rewrite spans on file `f`.
pub open spec fn skipped(plan: MovePlan, f: Seq<char>, at: int) -> bool {
    exists|k: int| 0 <= k < plan.rewrites@.len() && comps((#[trigger] plan.rewrites@[k]).file@) == comps(f)
        && plan.rewrites@[k].span.start <= at < plan.rewrites@[k].span.end
}

/// Start of the line holding byte `at`.
pub open spec fn line_start(src: Seq<u8>, at: int) -> int
    decreases at,
{
    if at <= 0 {
        0
    } else if src[at - 1] == 10u8 {
        at
    } else {
        line_start(src, at - 1)
    }
}

/// End of the line holding byte `at` (its `\n`, or the end of `src`).
pub open spec fn line_stop(src: Seq<u8>, at: int) -> int
    decreases src.len() - at,
{
    if at >= src.len() {
        src.len() as int
    } else if src[at] == 10u8 {
        at
    } else {
        line_stop(src, at + 1)
    }
}

/// The line holding byte `at`, trimmed, capped at 100 characters.
pub open spec fn excerpt_spec(src: Seq<u8>, at: int) -> Seq<char> {
    let a = line_start(src, at);
    let b = line_stop(src, at);
    if slice_ok(src, a, b) {
        let line = trimmed(vstd::utf8::decode_utf8(src.subrange(a, b)));
        if line.len() > 100 {
            line.take(100)
        } else {
            line
        }
    } else {
        Seq::empty()
    }
}

/// The 1-based line of byte `at`, saturating.
pub open spec fn line_value(src: Seq<u8>, at: int) -> int {
    if line_at(src, at) <= usize::MAX {
        line_at(src, at) as int
    } else {
        usize::MAX as int
    }
}

/// The references `file` (with `text`) holds for the first `n` patterns.
pub open spec fn file_refs(plan: MovePlan, pats: Seq<Pattern>, file: Seq<char>, text: Seq<char>, n: int) -> Seq<RefView>
    decreases n,
{
    if n <= 0 {
        Seq::empty()
    } else {
        let src = utf8(text);
        let (tok, kind) = pats[n - 1];
        file_refs(plan, pats, file, text, n - 1) + hit_refs(plan, file, src, tok, kind, occurrences(src, utf8(tok), 0))
    }
}

/// The references of the occurrences `hits` of `tok` in `file` (with
/// UTF-8 text `src`) outside the plan's rewrite spans.
pub open spec fn hit_refs(plan: MovePlan, file: Seq<char>, src: Seq<u8>, tok: Seq<char>, kind: Seq<char>, hits: Seq<int>) -> Seq<RefView>
    decreases hits.len(),
{
    if hits.len() == 0 {
        Seq::empty()
    } else {
        let prev = hit_refs(plan, file, src, tok, kind, hits.drop_last());
        let at = hits.last();
        if skipped(plan, file, at) {
            prev
        } else {
            prev.push((rel_text(file), line_value(src, at), tok, kind, excerpt_spec(src, at)))
        }
    }
}

/// The references of the first `n` files, file after file.
pub open spec fn all_refs(plan: MovePlan, pats: Seq<Pattern>, files: Seq<Seq<char>>, texts: Map<Seq<char>, String>, n: int) -> Seq<RefView>
    decreases n,
{
    if n <= 0 {
        Seq::empty()
    } else {
        let f = files[n - 1];
        let prev = all_refs(plan, pats, files, texts, n - 1);
        if texts.contains_key(f) {
            prev + file_refs(plan, pats, f, texts[f]@, pats.len() as int)
        } else {
            prev
        }
    }
}

/// `a` sorts after `b` by (file, line).
pub open spec fn ref_after(a: RefView, b: RefView) -> bool {
    text_lt(b.0, a.0) || (a.0 == b.0 && a.1 > b.1)
}

/// Index of the first reference of `r` from `i` on sorting after `x`.
pub open spec fn first_ref_after(r: Seq<RefView>, x: RefView, i: int) -> int
    decreases r.len() - i,
{
    if i >= r.len() {
        r.len() as int
    } else if ref_after(r[i], x) {
        i
    } else {
        first_ref_after(r, x, i + 1)
    }
}

/// The references sorted by (file, line); ties keep their order.
pub open spec fn by_site(s: Seq<RefView>) -> Seq<RefView>
    decreases s.len(),
{
    if s.len() == 0 {
        Seq::empty()
    } else {
        let r = by_site(s.drop_last());
        r.insert(first_ref_after(r, s.last(), 0), s.last())
    }
}

/// Consecutive references on one line collapsed to the first.
pub open spec fn one_per_line(s: Seq<RefView>) -> Seq<RefView>
    decreases s.len(),
{
    if s.len() == 0 {
        Seq::empty()
    } else {
        let d = one_per_line(s.drop_last());
        if d.len() > 0 && d.last().0 == s.last().0 && d.last().1 == s.last().1 {
            d
        } else {
            d.push(s.last())
        }
    }
}

/// What [`scan`] reports.
pub open spec fn scan_spec(plan: MovePlan, source_is_dir: bool, files: Seq<Seq<char>>, texts: Map<Seq<char>, String>) -> Seq<RefView> {
    let pats = patterns_spec(plan, source_is_dir);
    if pats.len() == 0 {
        Seq::empty()
    } else {
        one_per_line(by_site(all_refs(plan, pats, files, texts, files.len() as int)))
    }
}

/// The pattern views.
pub open spec fn pattern_views(v: Seq<(String, &'static str)>) -> Seq<Pattern> {
    v.map_values(|p: (String, &'static str)| (p.0@, p.1@))
}

// Add a pattern, as in [`add_pattern`].
fn push_pattern(out: &mut Vec<(String, &'static str)>, tok: String, kind: &'static str)
    ensures
        pattern_views(final(out)@) == add_pattern(pattern_views(old(out)@), tok@, kind@),
{
    let ghost pv = pattern_views(out@);
    let ts = tok.as_str();
    proof {
        lemma_str_bytes(ts);
    }
    if ts.as_bytes().len() <= 1 {
        return;
    }
    let mut k: usize = 0;
    while k < out.len()
        invariant
            pv == pattern_views(out@),
            k <= out@.len(),
            forall|j: int| 0 <= j < k ==> (#[trigger] pv[j]).0 != tok@,
        decreases out.len() - k,
    {
        if crate::text::str_eq(out[k].0.as_str(), tok.as_str()) {
            assert(pv[k as int].0 == tok@);
            return;
        }
        k += 1;
    }
    let ghost t = tok@;
    out.push((tok, kind));
    assert(pattern_views(out@) =~= pv.push((t, kind@)));
}

// The patterns of a plan, as in [`patterns_spec`].
fn patterns(plan: &MovePlan, source_is_dir: bool) -> (r: Vec<(String, &'static str)>)
    ensures
        pattern_views(r@) == patterns_spec(*plan, source_is_dir),
{
    let ghost srcs = plan.moves@.map_values(|m: FileMove| m.source@);
    let ghost olds = plan.rewrites@.map_values(|r: Rewrite| r.old_text@);
    let mut out: Vec<(String, &'static str)> = Vec::new();
    assert(pattern_views(out@) =~= Seq::<Pattern>::empty());
    let mut i: usize = 0;
    while i < plan.moves.len()
        invariant
            srcs == plan.moves@.map_values(|m: FileMove| m.source@),
            i <= plan.moves@.len(),
            pattern_views(out@) == move_patterns(srcs, i as int),
        decreases plan.moves.len() - i,
    {
        let path = rel_str(plan.moves[i].source.as_str());
        assert(srcs[i as int] == plan.moves@[i as int].source@);
        let cs = chars_of(path.as_str());
        proof {
            lemma_last_index_of(path@, '.');
        }
        let dot = rfind_char(cs.as_slice(), '.');
        push_pattern(&mut out, path, "path");
        match dot {
            Some(k) => {
                let stem = string_of(chars_slice(cs.as_slice(), 0, k).as_slice());
                push_pattern(&mut out, stem, "module");
            },
            None => {},
        }
        i += 1;
    }
    let mut j: usize = 0;
    let ghost base = pattern_views(out@);
    while j < plan.rewrites.len()
        invariant
            olds == plan.rewrites@.map_values(|r: Rewrite| r.old_text@),
            j <= plan.rewrites@.len(),
            pattern_views(out@) == specifier_patterns(base, olds, j as int),
        decreases plan.rewrites.len() - j,
    {
        assert(olds[j as int] == plan.rewrites@[j as int].old_text@);
        push_pattern(&mut out, plan.rewrites[j].old_text.clone(), "specifier");
        j += 1;
    }
    if plan.moves.len() > 1 && source_is_dir {
        let mut d = rel_str(plan.source.as_str());
        push_str(&mut d, "/");
        push_pattern(&mut out, d, "dir");
    }
    out
}

// The first match of `tok` at or after `from`.
fn find_from(src: &[u8], tok: &[u8], from: usize) -> (r: Option<usize>)
    requires
        tok@.len() > 0,
    ensures
        match r {
            Some(at) => next_match(src@, tok@, from as int) == at as int && at + tok@.len() <= src@.len(),
            None => next_match(src@, tok@, from as int) == -1,
        },
{
    proof {
        lemma_next_match(src@, tok@, from as int);
    }
    let n = src.len();
    let m = tok.len();
    if m > n {
        proof {
            lemma_next_match(src@, tok@, from as int);
        }
        assert(next_match(src@, tok@, from as int) == -1);
        return None;
    }
    let mut at = from;
    while at <= n - m
        invariant
            n == src@.len(),
            m == tok@.len(),
            0 < m <= n,
            from <= at,
            next_match(src@, tok@, from as int) == next_match(src@, tok@, at as int),
        decreases n - at,
    {
        let mut k: usize = 0;
        let mut same = true;
        while k < m
            invariant
                at + m <= n,
                n == src@.len(),
                m == tok@.len(),
                k <= m,
                same == forall|j: int| 0 <= j < k ==> src@[at + j] == tok@[j],
            decreases m - k,
        {
            if src[at + k] != tok[k] {
                same = false;
            }
            k += 1;
        }
        if same {
            assert(src@.subrange(at as int, at + m) =~= tok@);
            assert(matches_at(src@, tok@, at as int));
            assert(next_match(src@, tok@, at as int) == at);
            return Some(at);
        } else {
            assert(!matches_at(src@, tok@, at as int)) by {
                if matches_at(src@, tok@, at as int) {
                    let j = choose|j: int| 0 <= j < m && src@[at + j] != tok@[j];
                    assert(src@.subrange(at as int, at + m)[j] == tok@[j]);
                }
            }
        }
        at += 1;
    }
    None
}

// Whether a byte is a word byte.
fn word_byte(b: u8) -> (r: bool)
    ensures
        r == is_word_byte(b),
{
    (48u8 <= b && b <= 57u8) || (65u8 <= b && b <= 90u8) || (97u8 <= b && b <= 122u8) || b == 95u8 || b == 36u8
        || b >= 128u8
}

/// Every offset where `token` occurs as a standalone word of `source`: a
/// word-free byte before it and no word byte, `-` or `_` after it.
pub fn token_occurrences(source: &str, token: &str) -> (r: Vec<usize>)
    requires
        token@.len() > 0,
    ensures
        r@.map_values(|at: usize| at as int) == occurrences(utf8(source@), utf8(token@), 0),
        forall|k: int| 0 <= k < r@.len() ==> r@[k] + utf8(token@).len() <= utf8(source@).len(),
{
    let src = source.as_bytes();
    let tok = token.as_bytes();
    proof {
        lemma_str_bytes(source);
        lemma_str_bytes(token);
        vstd::utf8::encode_utf8_first_scalar(token@);
    }
    assert(tok@.len() > 0);
    let n = src.len();
    let mut hits: Vec<usize> = Vec::new();
    let mut from: usize = 0;
    loop
        invariant
            src@ == utf8(source@),
            tok@ == utf8(token@),
            tok@.len() > 0,
            n == src@.len(),
            from <= src@.len() + 1,
            hits@.map_values(|at: usize| at as int) + occurrences(src@, tok@, from as int)
                == occurrences(src@, tok@, 0),
            forall|k: int| 0 <= k < hits@.len() ==> hits@[k] + tok@.len() <= n,
        ensures
            hits@.map_values(|at: usize| at as int) == occurrences(src@, tok@, 0),
            forall|k: int| 0 <= k < hits@.len() ==> hits@[k] + tok@.len() <= n,
        decreases src@.len() + 1 - from,
    {
        proof {
            lemma_next_match(src@, tok@, from as int);
        }
        let at = match find_from(src, tok, from) {
            Some(at) => at,
            None => {
                assert(occurrences(src@, tok@, from as int) =~= Seq::<int>::empty());
                assert(hits@.map_values(|at: usize| at as int) + Seq::<int>::empty() =~= hits@.map_values(|at: usize| at as int));
                break;
            },
        };
        let end = at + tok.len();
        let before_ok = at == 0 || !word_byte(src[at - 1]);
        let after_ok = !(end < src.len() && (word_byte(src[end]) || src[end] == 45u8 || src[end] == 95u8));
        let ghost head = hits@.map_values(|x: usize| x as int);
        let ghost rest = occurrences(src@, tok@, end as int);
        if before_ok && after_ok {
            hits.push(at);
            assert(hits@.map_values(|x: usize| x as int) =~= head.push(at as int));
            assert(head.push(at as int) + rest =~= head + (seq![at as int] + rest));
        }
        from = end;
    }
    hits
}

// Whether offset `at` lies in a rewrite span of the plan on `file`.
fn in_rewrite(plan: &MovePlan, file: &str, at: usize) -> (r: bool)
    ensures
        r == skipped(*plan, file@, at as int),
{
    let mut k: usize = 0;
    while k < plan.rewrites.len()
        invariant
            k <= plan.rewrites@.len(),
            forall|j: int| 0 <= j < k ==> !(comps((#[trigger] plan.rewrites@[j]).file@) == comps(file@)
                && plan.rewrites@[j].span.start <= at < plan.rewrites@[j].span.end),
        decreases plan.rewrites.len() - k,
    {
        let r = &plan.rewrites[k];
        if same_path(r.file.as_str(), file) && r.span.start <= at && at < r.span.end {
            return true;
        }
        k += 1;
    }
    false
}

/// The line holding byte `at` of `source`, trimmed, capped at 100
/// characters.
pub fn excerpt(source: &str, at: usize) -> (r: String)
    requires
        at <= utf8(source@).len(),
    ensures
        r@ == excerpt_spec(utf8(source@), at as int),
{
    let src = source.as_bytes();
    proof {
        lemma_str_bytes(source);
    }
    let ghost s = src@;
    let mut a = at;
    while a > 0 && src[a - 1] != 10u8
        invariant
            a <= s.len(),
            s == src@,
            line_start(s, at as int) == line_start(s, a as int),
        decreases a,
    {
        a -= 1;
    }
    let mut b = at;
    while b < src.len() && src[b] != 10u8
        invariant
            s == src@,
            at <= b <= s.len(),
            line_stop(s, at as int) == line_stop(s, b as int),
        decreases src.len() - b,
    {
        b += 1;
    }
    let line = match span_text(source, a, b) {
        Some(t) => t,
        None => return String::new(),
    };
    proof {
        broadcast use vstd::utf8::encode_utf8_decode_utf8;
    }
    let t = trim(line.as_str());
    let cs = chars_of(t.as_str());
    if cs.len() > 100 {
        string_of(chars_slice(cs.as_slice(), 0, 100).as_slice())
    } else {
        t
    }
}

/// Lockfiles never reference project-local paths and are huge: skipped.
pub open spec fn lockfile(name: Seq<char>) -> bool {
    name == "package-lock.json"@ || name == "yarn.lock"@ || name == "pnpm-lock.yaml"@
}

/// Text formats beyond source code that may name project files.
pub open spec fn text_ext(e: Seq<char>) -> bool {
    e == "md"@ || e == "mdx"@ || e == "json"@ || e == "json5"@ || e == "yaml"@ || e == "yml"@ || e == "html"@
        || e == "htm"@ || e == "xml"@ || e == "txt"@ || e == "pro"@ || e == "gradle"@
}

/// Largest text file the scan reads.
pub open spec fn max_text_bytes() -> u64 {
    524288u64
}

/// A component whose name starts with `.`.
pub open spec fn dotted(c: Comp) -> bool {
    match c {
        Comp::Normal(s) => s.len() > 0 && s[0] == '.',
        Comp::Cur => true,
        Comp::Parent => true,
        Comp::Root => false,
    }
}

/// Some component of `p` starts with `.`.
pub open spec fn hidden(p: Seq<char>) -> bool {
    exists|k: int| 0 <= k < comps(p).len() && #[trigger] dotted(comps(p)[k])
}

/// The project-relative text file a walked file (path relative to the
/// root, size in bytes) contributes, if any: not a lockfile, a text
/// extension, a normal relative path, not hidden, not too large.
pub open spec fn kept_text(raw: Seq<char>, size: u64) -> Option<Seq<char>> {
    let name = match file_name_of(raw) {
        Some(n) => n,
        None => Seq::empty(),
    };
    let ext = match extension_of(raw) {
        Some(e) => ascii_lowercase(e),
        None => Seq::empty(),
    };
    if lockfile(name) || !text_ext(ext) {
        None
    } else {
        match normalized(raw) {
            Some(r) => if hidden(r) || size > max_text_bytes() {
                None
            } else {
                Some(r)
            },
            None => None,
        }
    }
}

/// The text files the walk contributes.
pub open spec fn walked_texts(walked: Seq<(String, u64)>) -> Set<Seq<char>> {
    Set::new(|f: Seq<char>| exists|i: int| 0 <= i < walked.len() && kept_text((#[trigger] walked[i]).0@, walked[i].1) == Some(f))
}

// Whether a (lowercase) extension is a text format.
fn is_text_ext(e: &[char]) -> (r: bool)
    ensures
        r == text_ext(e@),
{
    chars_eq(e, chars_of("md").as_slice()) || chars_eq(e, chars_of("mdx").as_slice()) || chars_eq(e, chars_of("json").as_slice())
        || chars_eq(e, chars_of("json5").as_slice()) || chars_eq(e, chars_of("yaml").as_slice())
        || chars_eq(e, chars_of("yml").as_slice()) || chars_eq(e, chars_of("html").as_slice())
        || chars_eq(e, chars_of("htm").as_slice()) || chars_eq(e, chars_of("xml").as_slice())
        || chars_eq(e, chars_of("txt").as_slice()) || chars_eq(e, chars_of("pro").as_slice())
        || chars_eq(e, chars_of("gradle").as_slice())
}

// Whether some component of a path starts with `.`.
fn is_hidden(p: &str) -> (r: bool)
    ensures
        r == hidden(p@),
{
    let cs = crate::path::components(p);
    let ghost cv = crate::path::comp_views(cs@);
    let mut k: usize = 0;
    while k < cs.len()
        invariant
            cv == crate::path::comp_views(cs@),
            cv == comps(p@),
            k <= cs@.len(),
            forall|j: int| 0 <= j < k ==> !#[trigger] dotted(cv[j]),
        decreases cs.len() - k,
    {
        assert(cv[k as int] == cs@[k as int]@);
        let d = match &cs[k] {
            crate::path::Component::Normal(s) => s.len() > 0 && s[0] == '.',
            crate::path::Component::CurDir => true,
            crate::path::Component::ParentDir => true,
            crate::path::Component::RootDir => false,
        };
        if d {
            assert(dotted(cv[k as int]));
            return true;
        }
        k += 1;
    }
    false
}

/// The project-relative text file a walked file contributes (see
/// [`kept_text`]).
pub fn text_file(raw: &str, size: u64) -> (r: Option<String>)
    ensures
        match r {
            Some(t) => kept_text(raw@, size) == Some(t@),
            None => kept_text(raw@, size) is None,
        },
{
    let name = match file_name(raw) {
        Some(n) => n,
        None => Vec::new(),
    };
    let lock = chars_eq(name.as_slice(), chars_of("package-lock.json").as_slice())
        || chars_eq(name.as_slice(), chars_of("yarn.lock").as_slice())
        || chars_eq(name.as_slice(), chars_of("pnpm-lock.yaml").as_slice());
    let ext = match extension(raw) {
        Some(e) => crate::parser::lower_chars(e.as_slice()),
        None => Vec::new(),
    };
    if lock || !is_text_ext(ext.as_slice()) {
        return None;
    }
    match normalize_rel_path(raw) {
        Some(r) => if is_hidden(r.as_str()) || size > 524288u64 {
            None
        } else {
            Some(r)
        },
        None => None,
    }
}

/// Code files from the index plus the text files the walk found
/// (`walked`: paths relative to the root with their sizes), each once, in
/// path order.
pub fn text_files(index: &Index, walked: &Vec<(String, u64)>) -> (r: Vec<String>)
    ensures
        texts(r@).to_set() == index.files@.union(walked_texts(walked@)),
        texts(r@).no_duplicates(),
        sorted_by(r@),
{
    let mut out = index.files.sorted();
    let ghost base = texts(out@);
    assert(base == string_views(out@));
    let mut i: usize = 0;
    while i < walked.len()
        invariant
            i <= walked@.len(),
            base.to_set() == index.files@,
            texts(out@).no_duplicates(),
            forall|f: Seq<char>| #[trigger] texts(out@).contains(f) <==> (base.contains(f)
                || exists|j: int| 0 <= j < i && kept_text((#[trigger] walked@[j]).0@, walked@[j].1) == Some(f)),
        decreases walked.len() - i,
    {
        match text_file(walked[i].0.as_str(), walked[i].1) {
            Some(rel) => {
                let mut seen = false;
                let mut k: usize = 0;
                while k < out.len()
                    invariant
                        k <= out@.len(),
                        seen == exists|j: int| 0 <= j < k && out@[j]@ == rel@,
                    decreases out.len() - k,
                {
                    if crate::text::str_eq(out[k].as_str(), rel.as_str()) {
                        seen = true;
                    }
                    k += 1;
                }
                let ghost before = texts(out@);
                if !seen {
                    assert(!before.contains(rel@)) by {
                        if before.contains(rel@) {
                            let j = choose|j: int| 0 <= j < before.len() && before[j] == rel@;
                            assert(out@[j]@ == rel@);
                        }
                    }
                    let ghost rv = rel@;
                    out.push(rel);
                    assert(texts(out@) =~= before.push(rv));
                    assert forall|f: Seq<char>| #[trigger] texts(out@).contains(f) <==> (base.contains(f)
                        || exists|j: int| 0 <= j < i + 1 && kept_text((#[trigger] walked@[j]).0@, walked@[j].1) == Some(f)) by {
                        if texts(out@).contains(f) && f != rv {
                            let q = choose|q: int| 0 <= q < texts(out@).len() && texts(out@)[q] == f;
                            assert(before[q] == f);
                        }
                        if f == rv {
                            assert(texts(out@)[before.len() as int] == f);
                        }
                        if before.contains(f) {
                            let q = choose|q: int| 0 <= q < before.len() && before[q] == f;
                            assert(texts(out@)[q] == f);
                        }
                    }
                } else {
                    assert(before.contains(rel@)) by {
                        let j = choose|j: int| 0 <= j < k && out@[j]@ == rel@;
                        assert(before[j] == rel@);
                    }
                }
            },
            None => {},
        }
        i += 1;
    }
    let ghost unsorted = out@;
    let r = sort_stable(out);
    proof {
        crate::order::lemma_map_multiset(r@, unsorted, |s: String| s@);
        crate::parser::java::lemma_multiset_same_set(texts(r@), texts(unsorted));
        assert forall|f: Seq<char>| texts(r@).to_set().contains(f) <==> index.files@.union(walked_texts(walked@)).contains(f) by {
            assert(texts(r@).to_set().contains(f) == texts(unsorted).contains(f));
            assert(base.to_set().contains(f) == base.contains(f));
        }
        assert(texts(r@).to_set() =~= index.files@.union(walked_texts(walked@)));
    }
    r
}

// The references one file holds for the patterns.
fn refs_in_file(plan: &MovePlan, pats: &Vec<(String, &'static str)>, file: &str, text: &str) -> (r: Vec<NonImportRef>)
    requires
        forall|k: int| 0 <= k < pats@.len() ==> utf8(#[trigger] pats@[k].0@).len() > 1,
    ensures
        ref_views(r@) == file_refs(*plan, pattern_views(pats@), file@, text@, pats@.len() as int),
{
    let ghost pv = pattern_views(pats@);
    let ghost src = utf8(text@);
    let mut out: Vec<NonImportRef> = Vec::new();
    let mut k: usize = 0;
    while k < pats.len()
        invariant
            pv == pattern_views(pats@),
            src == utf8(text@),
            k <= pats@.len(),
            forall|q: int| 0 <= q < pats@.len() ==> utf8(#[trigger] pats@[q].0@).len() > 1,
            ref_views(out@) == file_refs(*plan, pv, file@, text@, k as int),
        decreases pats.len() - k,
    {
        let tok = pats[k].0.as_str();
        let kind = pats[k].1;
        assert(utf8(pats@[k as int].0@).len() > 1);
        assert(tok@.len() > 0) by {
            if tok@.len() == 0 {
                assert(tok@ =~= Seq::<char>::empty());
                assert(utf8(tok@) =~= Seq::<u8>::empty());
            }
        }
        let hits = token_occurrences(text, tok);
        let ghost hv = hits@.map_values(|at: usize| at as int);
        let ghost head = ref_views(out@);
        let mut q: usize = 0;
        while q < hits.len()
            invariant
                hv == hits@.map_values(|at: usize| at as int),
                q <= hits@.len(),
                src == utf8(text@),
                forall|j: int| 0 <= j < hits@.len() ==> hits@[j] + utf8(tok@).len() <= utf8(text@).len(),
                ref_views(out@) == head + hit_refs(*plan, file@, src, tok@, kind@, hv.take(q as int)),
            decreases hits.len() - q,
        {
            let at = hits[q];
            assert(hv.take(q + 1).drop_last() =~= hv.take(q as int));
            assert(hv.take(q + 1).last() == at as int);
            if !in_rewrite(plan, file, at) {
                let r = NonImportRef {
                    file: rel_str(file),
                    line: line_of(text, at),
                    token: String::from_str(tok),
                    kind,
                    text: excerpt(text, at),
                };
                let ghost before = out@;
                out.push(r);
                assert(ref_views(out@) =~= ref_views(before).push(ref_view(r)));
            }
            q += 1;
        }
        assert(hv.take(hits@.len() as int) =~= hv);
        proof {
            let (t, kd) = pv[k as int];
            assert(t == tok@ && kd == kind@);
        }
        k += 1;
    }
    out
}

// Whether reference `a` sorts after reference `b` by (file, line).
fn after(a: &NonImportRef, b: &NonImportRef) -> (r: bool)
    ensures
        r == ref_after(ref_view(*a), ref_view(*b)),
{
    let fa = chars_of(a.file.as_str());
    let fb = chars_of(b.file.as_str());
    crate::order::chars_lt(fb.as_slice(), fa.as_slice()) || (chars_eq(fa.as_slice(), fb.as_slice()) && a.line > b.line)
}

// The references sorted by (file, line), stable.
fn sort_by_site(v: Vec<NonImportRef>) -> (r: Vec<NonImportRef>)
    ensures
        ref_views(r@) == by_site(ref_views(v@)),
{
    let mut v = v;
    let mut r: Vec<NonImportRef> = Vec::new();
    let ghost vv = ref_views(v@);
    let total = v.len();
    let mut i: usize = 0;
    while v.len() > 0
        invariant
            i + v@.len() == vv.len(),
            vv.len() <= usize::MAX,
            ref_views(v@) == vv.subrange(i as int, vv.len() as int),
            ref_views(r@) == by_site(vv.take(i as int)),
        decreases v@.len(),
    {
        let ghost vold = v@;
        let x = v.remove(0);
        let ghost xv = ref_view(x);
        assert(ref_views(vold)[0] == vv[i as int]);
        let ghost rv = ref_views(r@);
        let mut p: usize = 0;
        while p < r.len() && !after(&r[p], &x)
            invariant
                p <= r@.len(),
                rv == ref_views(r@),
                xv == ref_view(x),
                first_ref_after(rv, xv, 0) == first_ref_after(rv, xv, p as int),
            decreases r.len() - p,
        {
            p += 1;
        }
        assert(first_ref_after(rv, xv, 0) == p);
        r.insert(p, x);
        proof {
            let t = vv.take(i + 1);
            assert(t.drop_last() =~= vv.take(i as int));
            assert(ref_views(r@) =~= rv.insert(p as int, xv));
            assert(v@ =~= vold.subrange(1, vold.len() as int));
            assert(ref_views(v@) =~= ref_views(vold).subrange(1, vold.len() as int));
        }
        i += 1;
    }
    assert(vv.take(i as int) =~= vv);
    r
}

// One reference per (file, line): the first.
fn first_per_line(v: Vec<NonImportRef>) -> (r: Vec<NonImportRef>)
    ensures
        ref_views(r@) == one_per_line(ref_views(v@)),
{
    let mut v = v;
    let mut r: Vec<NonImportRef> = Vec::new();
    let ghost vv = ref_views(v@);
    let total = v.len();
    let mut i: usize = 0;
    while v.len() > 0
        invariant
            i + v@.len() == vv.len(),
            vv.len() <= usize::MAX,
            ref_views(v@) == vv.subrange(i as int, vv.len() as int),
            ref_views(r@) == one_per_line(vv.take(i as int)),
        decreases v@.len(),
    {
        let ghost vold = v@;
        let x = v.remove(0);
        assert(ref_views(vold)[0] == vv[i as int]);
        proof {
            let t = vv.take(i + 1);
            assert(t.drop_last() =~= vv.take(i as int));
            assert(v@ =~= vold.subrange(1, vold.len() as int));
            assert(ref_views(v@) =~= ref_views(vold).subrange(1, vold.len() as int));
        }
        let dup = r.len() > 0 && crate::text::str_eq(r[r.len() - 1].file.as_str(), x.file.as_str()) && r[r.len() - 1].line == x.line;
        if !dup {
            let ghost before = r@;
            r.push(x);
            assert(ref_views(r@) =~= ref_views(before).push(ref_view(x)));
        }
        i += 1;
    }
    assert(vv.take(i as int) =~= vv);
    r
}

/// Scan `files` (see [`text_files`]; their contents in `texts`, keyed by
/// path — a file without contents is skipped) for references to the
/// plan's moves outside the import statements the plan rewrites. One
/// entry per (file, line), the highest-ranked token first, sorted by
/// file and line. `source_is_dir` tells whether the plan's source is a
/// directory on disk.
pub fn scan(plan: &MovePlan, source_is_dir: bool, files: &Vec<String>, texts_by_file: &TextMap<String>) -> (r: Vec<NonImportRef>)
    ensures
        ref_views(r@) == scan_spec(*plan, source_is_dir, texts(files@), texts_by_file@),
{
    let pats = patterns(plan, source_is_dir);
    let ghost pv = pattern_views(pats@);
    if pats.len() == 0 {
        let r: Vec<NonImportRef> = Vec::new();
        assert(ref_views(r@) =~= Seq::<RefView>::empty());
        return r;
    }
    proof {
        lemma_patterns_long(*plan, source_is_dir);
        assert forall|k: int| 0 <= k < pats@.len() implies utf8(#[trigger] pats@[k].0@).len() > 1 by {
            assert(pv[k].0 == pats@[k].0@);
        }
    }
    let ghost fv = texts(files@);
    let mut all: Vec<NonImportRef> = Vec::new();
    let mut i: usize = 0;
    while i < files.len()
        invariant
            pv == pattern_views(pats@),
            pv == patterns_spec(*plan, source_is_dir),
            fv == texts(files@),
            i <= files@.len(),
            forall|k: int| 0 <= k < pats@.len() ==> utf8(#[trigger] pats@[k].0@).len() > 1,
            ref_views(all@) == all_refs(*plan, pv, fv, texts_by_file@, i as int),
        decreases files.len() - i,
    {
        let f = files[i].as_str();
        assert(fv[i as int] == f@);
        match texts_by_file.get(f) {
            Some(text) => {
                let more = refs_in_file(plan, &pats, f, text.as_str());
                let ghost head = ref_views(all@);
                let ghost mv = ref_views(more@);
                let mut more = more;
                let total = more.len();
                let mut q: usize = 0;
                while more.len() > 0
                    invariant
                        q + more@.len() == mv.len(),
                        mv.len() <= usize::MAX,
                        ref_views(more@) == mv.subrange(q as int, mv.len() as int),
                        ref_views(all@) == head + mv.take(q as int),
                    decreases more@.len(),
                {
                    let ghost mold = more@;
                    let c = more.remove(0);
                    assert(ref_views(mold)[0] == mv[q as int]);
                    let ghost before = all@;
                    all.push(c);
                    assert(ref_views(all@) =~= ref_views(before).push(mv[q as int]));
                    assert(mv.take(q + 1) =~= mv.take(q as int).push(mv[q as int]));
                    assert(more@ =~= mold.subrange(1, mold.len() as int));
                    assert(ref_views(more@) =~= ref_views(mold).subrange(1, mold.len() as int));
                    q += 1;
                }
                assert(mv.take(q as int) =~= mv);
            },
            None => {},
        }
        i += 1;
    }
    first_per_line(sort_by_site(all))
}

/// Every pattern's token is longer than one byte.
pub proof fn lemma_patterns_long(plan: MovePlan, source_is_dir: bool)
    ensures
        forall|k: int| 0 <= k < patterns_spec(plan, source_is_dir).len() ==> utf8(#[trigger] patterns_spec(plan, source_is_dir)[k].0).len() > 1,
{
    let srcs = plan.moves@.map_values(|m: FileMove| m.source@);
    let olds = plan.rewrites@.map_values(|r: Rewrite| r.old_text@);
    lemma_move_patterns_long(srcs, srcs.len() as int);
    lemma_specifier_patterns_long(move_patterns(srcs, srcs.len() as int), olds, olds.len() as int);
}

/// Adding a pattern keeps every token longer than one byte.
pub proof fn lemma_add_pattern_long(out: Seq<Pattern>, tok: Seq<char>, kind: Seq<char>)
    requires
        forall|k: int| 0 <= k < out.len() ==> utf8(#[trigger] out[k].0).len() > 1,
    ensures
        forall|k: int| 0 <= k < add_pattern(out, tok, kind).len() ==> utf8(#[trigger] add_pattern(out, tok, kind)[k].0).len() > 1,
{
}

/// The move patterns are longer than one byte.
pub proof fn lemma_move_patterns_long(srcs: Seq<Seq<char>>, n: int)
    ensures
        forall|k: int| 0 <= k < move_patterns(srcs, n).len() ==> utf8(#[trigger] move_patterns(srcs, n)[k].0).len() > 1,
    decreases n,
{
    if n > 0 {
        lemma_move_patterns_long(srcs, n - 1);
        let path = rel_text(srcs[n - 1]);
        let out = add_pattern(move_patterns(srcs, n - 1), path, "path"@);
        lemma_add_pattern_long(move_patterns(srcs, n - 1), path, "path"@);
        match last_index_of(path, '.') {
            Some(k) => lemma_add_pattern_long(out, path.subrange(0, k), "module"@),
            None => {},
        }
    }
}

/// The specifier patterns keep tokens longer than one byte.
pub proof fn lemma_specifier_patterns_long(base: Seq<Pattern>, olds: Seq<Seq<char>>, n: int)
    requires
        forall|k: int| 0 <= k < base.len() ==> utf8(#[trigger] base[k].0).len() > 1,
    ensures
        forall|k: int| 0 <= k < specifier_patterns(base, olds, n).len() ==> utf8(#[trigger] specifier_patterns(base, olds, n)[k].0).len() > 1,
    decreases n,
{
    if n > 0 {
        lemma_specifier_patterns_long(base, olds, n - 1);
        lemma_add_pattern_long(specifier_patterns(base, olds, n - 1), olds[n - 1], "specifier"@);
    }
}

} // verus!

//! The byte-level edit engine shared by apply and diff: grouping plan
//! rewrites per file and patching a file's bytes.

use vstd::prelude::*;

use crate::engine::plan::{rewrite_views, MovePlan, RewriteView};
use crate::engine::{rel_str, Edit, JmoveError, JmoveResult};
use crate::order::path_lt;
use crate::path::{comps, rel_text, Comp};
use crate::text::{char_boundary, debug_quoted, debug_text, decimal, push_str, usize_text, utf8};

verus! {

/// An edit as the contracts see it: span start and end, expected text and
/// replacement text.
pub type EditView = (int, int, Seq<char>, Seq<char>);

impl Edit {
    pub open spec fn view_of(&self) -> EditView {
        (self.span.start as int, self.span.end as int, self.old_text@, self.new_text@)
    }
}

/// The views of an edit sequence.
pub open spec fn edit_views(s: Seq<Edit>) -> Seq<EditView> {
    s.map_values(|e: Edit| e.view_of())
}

/// The edit a rewrite performs.
pub open spec fn rewrite_edit(r: RewriteView) -> EditView {
    (r.1, r.2, r.3, r.4)
}

/// `a` sorts strictly after `b` by (start, end).
pub open spec fn key_gt(a: EditView, b: EditView) -> bool {
    a.0 > b.0 || (a.0 == b.0 && a.1 > b.1)
}

/// Index of the first element of `r` from `i` on that sorts after `x`.
pub open spec fn first_after(r: Seq<EditView>, x: EditView, i: int) -> int
    decreases r.len() - i,
{
    if i >= r.len() {
        r.len() as int
    } else if key_gt(r[i], x) {
        i
    } else {
        first_after(r, x, i + 1)
    }
}

/// The edits sorted by (start, end); equal keys keep their input order.
pub open spec fn sorted_edits(s: Seq<EditView>) -> Seq<EditView>
    decreases s.len(),
{
    if s.len() == 0 {
        Seq::empty()
    } else {
        let r = sorted_edits(s.drop_last());
        r.insert(first_after(r, s.last(), 0), s.last())
    }
}

/// The span at `i` runs backwards, or overlaps the next one.
pub open spec fn bad_at(s: Seq<EditView>, i: int) -> bool {
    s[i].0 > s[i].1 || (i + 1 < s.len() && s[i + 1].0 < s[i].1)
}

/// A span runs backwards, or two consecutive (sorted) spans overlap.
pub open spec fn spans_malformed(s: Seq<EditView>) -> bool {
    exists|i: int| 0 <= i < s.len() && #[trigger] bad_at(s, i)
}

/// The edit can be applied to `out`: its start is a character boundary,
/// its span lies inside, and the span holds the expected text.
pub open spec fn edit_fits(out: Seq<u8>, e: EditView) -> bool {
    &&& char_boundary(out, e.0)
    &&& e.1 <= out.len()
    &&& out.subrange(e.0, e.1) == utf8(e.2)
}

/// `out` with the span of `e` replaced by its new text.
pub open spec fn splice(out: Seq<u8>, e: EditView) -> Seq<u8> {
    out.subrange(0, e.0) + utf8(e.3) + out.subrange(e.1, out.len() as int)
}

/// Apply the edits from the last to the first; the first edit that does
/// not fit stops the run.
pub open spec fn apply_backwards(out: Seq<u8>, s: Seq<EditView>) -> Result<Seq<u8>, EditView>
    decreases s.len(),
{
    if s.len() == 0 {
        Ok(out)
    } else if edit_fits(out, s.last()) {
        apply_backwards(splice(out, s.last()), s.drop_last())
    } else {
        Err(s.last())
    }
}

/// A span written `start..end`.
pub open spec fn range_text(e: EditView) -> Seq<char> {
    decimal(e.0 as nat) + ".."@ + decimal(e.1 as nat)
}

/// The spans of `s` written as a list, `[a..b, c..d]`.
pub open spec fn spans_text(s: Seq<EditView>) -> Seq<char> {
    "["@ + spans_inner(s) + "]"@
}

/// The spans separated by `, `.
pub open spec fn spans_inner(s: Seq<EditView>) -> Seq<char>
    decreases s.len(),
{
    if s.len() == 0 {
        Seq::empty()
    } else if s.len() == 1 {
        range_text(s[0])
    } else {
        spans_inner(s.drop_last()) + ", "@ + range_text(s.last())
    }
}

/// What [`rewrite_bytes`] answers for patching `original` (a file shown
/// as `file`) with `edits`.
pub open spec fn rewrite_outcome(file: Seq<char>, original: Seq<u8>, edits: Seq<EditView>, r: JmoveResult<Vec<u8>>) -> bool {
    let sorted = sorted_edits(edits);
    if spans_malformed(sorted) {
        r matches Err(JmoveError::PlanRejected(m))
            && m@ == "overlapping or malformed edits in '"@ + rel_text(file) + "': "@ + spans_text(edits)
    } else {
        match apply_backwards(original, sorted) {
            Ok(out) => r matches Ok(v) && v@ == out,
            Err(e) => r matches Err(JmoveError::StaleIndex(m)) && m@ == "'"@ + rel_text(file)
                + "' changed since indexing (expected "@ + debug_quoted(e.2) + " at "@ + range_text(e) + ")"@,
        }
    }
}

// The edits, cloned and sorted by (start, end), stable.
fn sort_edits(edits: &[Edit]) -> (r: Vec<Edit>)
    ensures
        edit_views(r@) == sorted_edits(edit_views(edits@)),
{
    let mut r: Vec<Edit> = Vec::new();
    let mut i: usize = 0;
    while i < edits.len()
        invariant
            i <= edits@.len(),
            edit_views(r@) == sorted_edits(edit_views(edits@).take(i as int)),
        decreases edits.len() - i,
    {
        let x = edits[i].clone();
        let ghost xv = x.view_of();
        let ghost rv = edit_views(r@);
        let mut p: usize = 0;
        while p < r.len() && !(r[p].span.start > x.span.start || (r[p].span.start == x.span.start && r[p].span.end > x.span.end))
            invariant
                p <= r@.len(),
                rv == edit_views(r@),
                xv == x.view_of(),
                first_after(rv, xv, 0) == first_after(rv, xv, p as int),
            decreases r.len() - p,
        {
            assert(rv[p as int] == r@[p as int].view_of());
            p += 1;
        }
        proof {
            if p < r@.len() {
                assert(rv[p as int] == r@[p as int].view_of());
            }
        }
        assert(first_after(rv, xv, 0) == p);
        r.insert(p, x);
        proof {
            let t = edit_views(edits@).take(i + 1);
            assert(t.drop_last() =~= edit_views(edits@).take(i as int));
            assert(t.last() == xv);
            assert(edit_views(r@) =~= rv.insert(p as int, xv));
        }
        i += 1;
    }
    assert(edit_views(edits@).take(edits@.len() as int) =~= edit_views(edits@));
    r
}

// The list of spans, `[a..b, c..d]`.
fn spans_list(edits: &[Edit]) -> (r: String)
    ensures
        r@ == spans_text(edit_views(edits@)),
{
    let mut inner = String::new();
    let mut i: usize = 0;
    proof {
        reveal_strlit("[");
        reveal_strlit("]");
        reveal_strlit(", ");
        reveal_strlit("..");
    }
    while i < edits.len()
        invariant
            i <= edits@.len(),
            inner@ == spans_inner(edit_views(edits@).take(i as int)),
        decreases edits.len() - i,
    {
        let ghost t = edit_views(edits@).take(i + 1);
        assert(t.drop_last() =~= edit_views(edits@).take(i as int));
        if i > 0 {
            push_str(&mut inner, ", ");
        }
        let piece = range_string(&edits[i]);
        push_str(&mut inner, piece.as_str());
        proof {
            if i == 0 {
                assert(inner@ =~= range_text(t[0]));
            }
        }
        i += 1;
    }
    assert(edit_views(edits@).take(edits@.len() as int) =~= edit_views(edits@));
    let mut r = String::from_str("[");
    push_str(&mut r, inner.as_str());
    push_str(&mut r, "]");
    r
}

// A span as `start..end`.
fn range_string(e: &Edit) -> (r: String)
    ensures
        r@ == range_text(e.view_of()),
{
    let mut r = usize_text(e.span.start);
    push_str(&mut r, "..");
    let end = usize_text(e.span.end);
    push_str(&mut r, end.as_str());
    r
}

/// Whether byte `i` of `bytes` starts a character (or lies at or past the
/// end): it is not a continuation byte `10xx_xxxx`.
pub fn is_char_boundary(bytes: &[u8], i: usize) -> (r: bool)
    ensures
        r == char_boundary(bytes@, i as int),
{
    if i >= bytes.len() {
        true
    } else {
        (bytes[i] & 0xC0u8) != 0x80u8
    }
}

/// `path` with `.jmove-tmp` appended: the temporary file next to it (same
/// directory, so the final rename stays atomic).
pub fn sibling_temp(path: &str) -> (r: String)
    ensures
        r@ == path@ + ".jmove-tmp"@,
{
    let mut r = String::from_str(path);
    push_str(&mut r, ".jmove-tmp");
    r
}

// `out[..start] + new + out[end..]`.
fn splice_bytes(out: &Vec<u8>, start: usize, end: usize, new: &[u8]) -> (r: Vec<u8>)
    requires
        start <= end <= out@.len(),
    ensures
        r@ == out@.subrange(0, start as int) + new@ + out@.subrange(end as int, out@.len() as int),
{
    let mut r: Vec<u8> = Vec::new();
    let mut i: usize = 0;
    while i < start
        invariant
            i <= start <= end <= out@.len(),
            r@ == out@.subrange(0, i as int),
        decreases start - i,
    {
        r.push(out[i]);
        i += 1;
        assert(r@ =~= out@.subrange(0, i as int));
    }
    let mut j: usize = 0;
    while j < new.len()
        invariant
            j <= new@.len(),
            r@ == out@.subrange(0, start as int) + new@.subrange(0, j as int),
        decreases new.len() - j,
    {
        r.push(new[j]);
        j += 1;
        assert(r@ =~= out@.subrange(0, start as int) + new@.subrange(0, j as int));
    }
    assert(new@.subrange(0, new@.len() as int) =~= new@);
    let ghost head = r@;
    let mut k = end;
    while k < out.len()
        invariant
            end <= k <= out@.len(),
            r@ == head + out@.subrange(end as int, k as int),
        decreases out.len() - k,
    {
        r.push(out[k]);
        k += 1;
        assert(r@ =~= head + out@.subrange(end as int, k as int));
    }
    r
}

// Whether `out[start..end]` holds exactly `expected`.
fn span_holds(out: &Vec<u8>, start: usize, end: usize, expected: &[u8]) -> (r: bool)
    requires
        start <= end <= out@.len(),
    ensures
        r == (out@.subrange(start as int, end as int) == expected@),
{
    if end - start != expected.len() {
        return false;
    }
    let mut i: usize = 0;
    while i < expected.len()
        invariant
            i <= expected@.len(),
            end - start == expected@.len(),
            start <= end <= out@.len(),
            forall|j: int| 0 <= j < i ==> out@[start + j] == expected@[j],
        decreases expected.len() - i,
    {
        if out[start + i] != expected[i] {
            assert(out@.subrange(start as int, end as int)[i as int] != expected@[i as int]);
            return false;
        }
        i += 1;
    }
    assert(out@.subrange(start as int, end as int) =~= expected@);
    true
}

/// Apply `edits` to `original`: edits sorted by span (stable), rejected as
/// a plan error when a span runs backwards or two spans overlap, then
/// applied back to front so earlier offsets stay valid; an edit whose span
/// no longer holds its expected text (or whose start is not a character
/// boundary) means the file changed since indexing.
pub fn rewrite_bytes(file: &str, original: &[u8], edits: &[Edit]) -> (r: JmoveResult<Vec<u8>>)
    ensures
        rewrite_outcome(file@, original@, edit_views(edits@), r),
{
    let sorted = sort_edits(edits);
    let ghost sv = edit_views(sorted@);
    let mut i: usize = 0;
    let mut bad = false;
    while i < sorted.len()
        invariant
            i <= sorted@.len(),
            sv == edit_views(sorted@),
            bad == exists|j: int| 0 <= j < i && #[trigger] bad_at(sv, j),
        decreases sorted.len() - i,
    {
        let e = &sorted[i];
        let this_bad = e.span.start > e.span.end || (i + 1 < sorted.len() && sorted[i + 1].span.start < e.span.end);
        proof {
            assert(sv[i as int] == e.view_of());
            if i + 1 < sorted.len() {
                assert(sv[i + 1] == sorted@[i + 1].view_of());
            }
            assert(this_bad == bad_at(sv, i as int));
        }
        bad = bad || this_bad;
        i += 1;
    }
    if bad {
        let mut m = String::from_str("overlapping or malformed edits in '");
        push_str(&mut m, rel_str(file).as_str());
        push_str(&mut m, "': ");
        push_str(&mut m, spans_list(edits).as_str());
        proof {
            reveal_strlit("overlapping or malformed edits in '");
            reveal_strlit("': ");
        }
        return Err(JmoveError::PlanRejected(m));
    }
    let mut out: Vec<u8> = Vec::new();
    let mut k: usize = 0;
    while k < original.len()
        invariant
            k <= original@.len(),
            out@ == original@.subrange(0, k as int),
        decreases original.len() - k,
    {
        out.push(original[k]);
        k += 1;
        assert(out@ =~= original@.subrange(0, k as int));
    }
    assert(original@.subrange(0, original@.len() as int) =~= original@);
    let mut n = sorted.len();
    assert(sv.take(n as int) =~= sv);
    assert(!spans_malformed(sv));
    while n > 0
        invariant
            n <= sorted@.len(),
            sv == edit_views(sorted@),
            !spans_malformed(sv),
            sv == sorted_edits(edit_views(edits@)),
            apply_backwards(original@, sv) == apply_backwards(out@, sv.take(n as int)),
        decreases n,
    {
        let e = &sorted[n - 1];
        let ghost ev = sv[n - 1];
        assert(ev == e.view_of());
        assert(sv.take(n as int).last() == ev);
        assert(sv.take(n as int).drop_last() =~= sv.take(n - 1));
        assert(!bad_at(sv, n - 1));
        assert(e.span.start <= e.span.end);
        let old_s = e.old_text.as_str();
        let old_bytes = old_s.as_bytes();
        proof {
            crate::text::lemma_str_bytes(old_s);
        }
        if !is_char_boundary(out.as_slice(), e.span.start) || e.span.end > out.len()
            || !span_holds(&out, e.span.start, e.span.end, old_bytes) {
            let mut m = String::from_str("'");
            push_str(&mut m, rel_str(file).as_str());
            push_str(&mut m, "' changed since indexing (expected ");
            push_str(&mut m, debug_text(e.old_text.as_str()).as_str());
            push_str(&mut m, " at ");
            push_str(&mut m, range_string(e).as_str());
            push_str(&mut m, ")");
            proof {
                reveal_strlit("'");
                reveal_strlit("' changed since indexing (expected ");
                reveal_strlit(" at ");
                reveal_strlit(")");
            }
            proof {
                assert(!edit_fits(out@, ev));
                assert(apply_backwards(out@, sv.take(n as int)) == Err::<Seq<u8>, EditView>(ev));
            }
            return Err(JmoveError::StaleIndex(m));
        }
        let new_s = e.new_text.as_str();
        let new_bytes = new_s.as_bytes();
        proof {
            crate::text::lemma_str_bytes(new_s);
        }
        out = splice_bytes(&out, e.span.start, e.span.end, new_bytes);
        n -= 1;
    }
    assert(sv.take(0) =~= Seq::<EditView>::empty());
    Ok(out)
}

/// The edits of the rewrites on the file with the components of `key`,
/// in rewrite order.
pub open spec fn group_edits(rv: Seq<RewriteView>, key: Seq<char>) -> Seq<EditView> {
    rv.filter(|x: RewriteView| comps(x.0) == comps(key)).map_values(|x: RewriteView| rewrite_edit(x))
}

/// `key` is the file text of the first rewrite on its file.
pub open spec fn first_file(rv: Seq<RewriteView>, key: Seq<char>) -> bool {
    exists|j: int| 0 <= j < rv.len() && rv[j].0 == key && forall|k: int| 0 <= k < j ==> comps(rv[k].0) != comps(key)
}

/// Some group has a key with components `c`.
pub open spec fn has_group(groups: Seq<(String, Vec<Edit>)>, c: Seq<Comp>) -> bool {
    exists|a: int| 0 <= a < groups.len() && comps(groups[a].0@) == c
}

/// One group per file (by components), keyed by the file text of its
/// first rewrite, holding that file's edits in rewrite order; every
/// rewrite has its group.
pub open spec fn groups_of(rv: Seq<RewriteView>, groups: Seq<(String, Vec<Edit>)>) -> bool {
    &&& forall|a: int, b: int| 0 <= a < b < groups.len() ==> comps(#[trigger] groups[a].0@) != comps(#[trigger] groups[b].0@)
    &&& forall|a: int| 0 <= a < groups.len() ==> edit_views((#[trigger] groups[a]).1@) == group_edits(rv, groups[a].0@)
    &&& forall|a: int| 0 <= a < groups.len() ==> first_file(rv, (#[trigger] groups[a]).0@)
    &&& forall|j: int| 0 <= j < rv.len() ==> has_group(groups, comps(#[trigger] rv[j].0))
}

/// The per-file grouping, files in path order.
pub open spec fn grouped(rv: Seq<RewriteView>, groups: Seq<(String, Vec<Edit>)>) -> bool {
    &&& groups_of(rv, groups)
    &&& forall|a: int, b: int| 0 <= a < b < groups.len() ==> path_lt(#[trigger] groups[a].0@, #[trigger] groups[b].0@)
}

proof fn lemma_group_edits_push(rv: Seq<RewriteView>, x: RewriteView, key: Seq<char>)
    ensures
        group_edits(rv.push(x), key) == if comps(x.0) == comps(key) {
            group_edits(rv, key).push(rewrite_edit(x))
        } else {
            group_edits(rv, key)
        },
{
    let f = |y: RewriteView| comps(y.0) == comps(key);
    crate::order::lemma_filter_push(rv, x, f);
    if comps(x.0) == comps(key) {
        assert(rv.filter(f).push(x).map_values(|y: RewriteView| rewrite_edit(y))
            =~= rv.filter(f).map_values(|y: RewriteView| rewrite_edit(y)).push(rewrite_edit(x)));
    }
}

proof fn lemma_group_edits_none(rv: Seq<RewriteView>, key: Seq<char>)
    requires
        forall|j: int| 0 <= j < rv.len() ==> comps(#[trigger] rv[j].0) != comps(key),
    ensures
        group_edits(rv, key) == Seq::<EditView>::empty(),
{
    let f = |y: RewriteView| comps(y.0) == comps(key);
    assert forall|j: int| 0 <= j < rv.len() implies !f(rv[j]) by {}
    rv.lemma_all_neg_filter_empty(f);
    assert(rv.filter(f).map_values(|y: RewriteView| rewrite_edit(y)) =~= Seq::<EditView>::empty());
}

proof fn lemma_first_file_push(rv: Seq<RewriteView>, x: RewriteView, key: Seq<char>)
    requires
        first_file(rv, key),
    ensures
        first_file(rv.push(x), key),
{
    let j = choose|j: int| 0 <= j < rv.len() && rv[j].0 == key && forall|k: int| 0 <= k < j ==> comps(rv[k].0) != comps(key);
    let p = rv.push(x);
    assert(p[j] == rv[j]);
    assert forall|k: int| 0 <= k < j implies comps(p[k].0) != comps(key) by {
        assert(p[k] == rv[k]);
    }
}

proof fn lemma_groups_extend(rv: Seq<RewriteView>, before: Seq<(String, Vec<Edit>)>, x: RewriteView, at: int, after: Seq<(String, Vec<Edit>)>)
    requires
        groups_of(rv, before),
        0 <= at < before.len(),
        comps(before[at].0@) == comps(x.0),
        after.len() == before.len(),
        forall|a: int| 0 <= a < before.len() && a != at ==> after[a] == before[a],
        after[at].0 == before[at].0,
        edit_views(after[at].1@) == edit_views(before[at].1@).push(rewrite_edit(x)),
    ensures
        groups_of(rv.push(x), after),
{
    let p = rv.push(x);
    assert forall|a: int, b: int| 0 <= a < b < after.len() implies comps(#[trigger] after[a].0@) != comps(#[trigger] after[b].0@) by {
        assert(after[a].0 == before[a].0 && after[b].0 == before[b].0);
    }
    assert forall|a: int| 0 <= a < after.len() implies edit_views((#[trigger] after[a]).1@) == group_edits(p, after[a].0@) by {
        lemma_group_edits_push(rv, x, after[a].0@);
        assert(after[a].0 == before[a].0);
        if a != at {
            assert(comps(before[a].0@) != comps(before[at].0@));
        }
    }
    assert forall|a: int| 0 <= a < after.len() implies first_file(p, (#[trigger] after[a]).0@) by {
        assert(after[a].0 == before[a].0);
        assert(first_file(rv, before[a].0@));
        lemma_first_file_push(rv, x, before[a].0@);
    }
    assert forall|j: int| 0 <= j < p.len() implies has_group(after, comps(#[trigger] p[j].0)) by {
        if j < rv.len() {
            assert(p[j] == rv[j]);
            assert(has_group(before, comps(rv[j].0)));
            let a = choose|a: int| 0 <= a < before.len() && comps(before[a].0@) == comps(rv[j].0);
            assert(after[a].0 == before[a].0);
        } else {
            assert(comps(after[at].0@) == comps(p[j].0));
        }
    }
}

proof fn lemma_groups_new(rv: Seq<RewriteView>, before: Seq<(String, Vec<Edit>)>, x: RewriteView, after: Seq<(String, Vec<Edit>)>)
    requires
        groups_of(rv, before),
        !has_group(before, comps(x.0)),
        after.len() == before.len() + 1,
        forall|a: int| 0 <= a < before.len() ==> after[a] == before[a],
        after[before.len() as int].0@ == x.0,
        edit_views(after[before.len() as int].1@) == seq![rewrite_edit(x)],
    ensures
        groups_of(rv.push(x), after),
{
    let p = rv.push(x);
    let n = before.len() as int;
    assert forall|j: int| 0 <= j < rv.len() implies comps(#[trigger] rv[j].0) != comps(x.0) by {
        assert(has_group(before, comps(rv[j].0)));
    }
    assert forall|a: int, b: int| 0 <= a < b < after.len() implies comps(#[trigger] after[a].0@) != comps(#[trigger] after[b].0@) by {
        assert(after[a] == before[a]);
        if b < n {
            assert(after[b] == before[b]);
        }
    }
    assert forall|a: int| 0 <= a < after.len() implies edit_views((#[trigger] after[a]).1@) == group_edits(p, after[a].0@) by {
        lemma_group_edits_push(rv, x, after[a].0@);
        if a == n {
            lemma_group_edits_none(rv, x.0);
            assert(seq![rewrite_edit(x)] =~= Seq::<EditView>::empty().push(rewrite_edit(x)));
        } else {
            assert(after[a] == before[a]);
        }
    }
    assert forall|a: int| 0 <= a < after.len() implies first_file(p, (#[trigger] after[a]).0@) by {
        if a < n {
            assert(after[a] == before[a]);
            lemma_first_file_push(rv, x, before[a].0@);
        } else {
            assert(p[rv.len() as int].0 == after[a].0@);
            assert forall|k: int| 0 <= k < rv.len() implies comps(p[k].0) != comps(after[a].0@) by {
                assert(p[k] == rv[k]);
            }
        }
    }
    assert forall|j: int| 0 <= j < p.len() implies has_group(after, comps(#[trigger] p[j].0)) by {
        if j < rv.len() {
            assert(p[j] == rv[j]);
            assert(has_group(before, comps(rv[j].0)));
            let a = choose|a: int| 0 <= a < before.len() && comps(before[a].0@) == comps(rv[j].0);
            assert(after[a] == before[a]);
        } else {
            assert(comps(after[n].0@) == comps(p[j].0));
        }
    }
}

/// Group plan rewrites as per-file edits: files in path order (each file
/// once, by its components), edits of a file in rewrite order.
pub fn group_by_file(plan: &MovePlan) -> (r: Vec<(String, Vec<Edit>)>)
    ensures
        grouped(rewrite_views(plan.rewrites@), r@),
{
    let rw = &plan.rewrites;
    let ghost rv = rewrite_views(rw@);
    let mut groups: Vec<(String, Vec<Edit>)> = Vec::new();
    let mut i: usize = 0;
    while i < rw.len()
        invariant
            i <= rw@.len(),
            rv == rewrite_views(rw@),
            groups_of(rv.take(i as int), groups@),
        decreases rw.len() - i,
    {
        let r = &rw[i];
        let ghost x = rv[i as int];
        assert(x == r.view_of());
        let mut g: usize = 0;
        let mut found = false;
        while g < groups.len() && !found
            invariant
                g <= groups@.len(),
                x == r.view_of(),
                !found ==> forall|a: int| 0 <= a < g ==> comps(#[trigger] groups@[a].0@) != comps(x.0),
                found ==> g > 0 && comps(groups@[g - 1].0@) == comps(x.0),
            decreases groups.len() - g + if found { 0int } else { 1int },
        {
            if crate::engine::plan::java::same_path(groups[g].0.as_str(), r.file.as_str()) {
                found = true;
            }
            g += 1;
        }
        let ghost before = groups@;
        assert(rv.take(i + 1) =~= rv.take(i as int).push(x));
        if found {
            let at = g - 1;
            let mut entry = groups.remove(at);
            let ghost old_edits = entry.1@;
            let ed = r.to_edit();
            assert(ed.view_of() == rewrite_edit(x));
            entry.1.push(ed);
            assert(edit_views(entry.1@) =~= edit_views(old_edits).push(rewrite_edit(x)));
            groups.insert(at, entry);
            proof {
                assert forall|a: int| 0 <= a < before.len() && a != at implies groups@[a] == before[a] by {}
                lemma_groups_extend(rv.take(i as int), before, x, at as int, groups@);
            }
        } else {
            let mut edits: Vec<Edit> = Vec::new();
            let ed = r.to_edit();
            assert(ed.view_of() == rewrite_edit(x));
            edits.push(ed);
            assert(edit_views(edits@) =~= seq![rewrite_edit(x)]);
            groups.push((r.file.clone(), edits));
            proof {
                assert(!has_group(before, comps(x.0)));
                lemma_groups_new(rv.take(i as int), before, x, groups@);
            }
        }
        i += 1;
    }
    assert(rv.take(rv.len() as int) =~= rv);
    let ghost unsorted = groups@;
    let r = sort_groups(groups);
    proof {
        lemma_groups_permuted(rv, unsorted, r@);
    }
    r
}

proof fn lemma_groups_permuted(rv: Seq<RewriteView>, g1: Seq<(String, Vec<Edit>)>, g2: Seq<(String, Vec<Edit>)>)
    requires
        groups_of(rv, g1),
        forall|a: int| 0 <= a < g2.len() ==> g1.contains(#[trigger] g2[a]),
        forall|a: int| 0 <= a < g1.len() ==> g2.contains(#[trigger] g1[a]),
        forall|a: int, b: int| 0 <= a < b < g2.len() ==> path_lt(#[trigger] g2[a].0@, #[trigger] g2[b].0@),
    ensures
        grouped(rv, g2),
{
    assert forall|a: int, b: int| 0 <= a < b < g2.len() implies comps(#[trigger] g2[a].0@) != comps(#[trigger] g2[b].0@) by {
        crate::order::lemma_path_order(g2[a].0@, g2[b].0@, g2[a].0@);
    }
    assert forall|a: int| 0 <= a < g2.len() implies edit_views((#[trigger] g2[a]).1@) == group_edits(rv, g2[a].0@)
        && first_file(rv, g2[a].0@) by {
        assert(g1.contains(g2[a]));
        let i = choose|i: int| 0 <= i < g1.len() && g1[i] == g2[a];
        assert(edit_views(g1[i].1@) == group_edits(rv, g1[i].0@));
        assert(first_file(rv, g1[i].0@));
    }
    assert forall|j: int| 0 <= j < rv.len() implies has_group(g2, comps(#[trigger] rv[j].0)) by {
        assert(has_group(g1, comps(rv[j].0)));
        let i = choose|i: int| 0 <= i < g1.len() && comps(g1[i].0@) == comps(rv[j].0);
        assert(g2.contains(g1[i]));
        let a = choose|a: int| 0 <= a < g2.len() && g2[a] == g1[i];
    }
}

// Sort groups into path order (their keys have distinct components).
fn sort_groups(groups: Vec<(String, Vec<Edit>)>) -> (r: Vec<(String, Vec<Edit>)>)
    requires
        forall|a: int, b: int| 0 <= a < b < groups@.len() ==> comps(#[trigger] groups@[a].0@) != comps(#[trigger] groups@[b].0@),
    ensures
        forall|a: int| 0 <= a < r@.len() ==> groups@.contains(#[trigger] r@[a]),
        forall|a: int| 0 <= a < groups@.len() ==> r@.contains(#[trigger] groups@[a]),
        forall|a: int, b: int| 0 <= a < b < r@.len() ==> path_lt(#[trigger] r@[a].0@, #[trigger] r@[b].0@),
{
    let mut r: Vec<(String, Vec<Edit>)> = Vec::new();
    let mut v = groups;
    let ghost all = v@;
    let ghost mut taken: Seq<(String, Vec<Edit>)> = Seq::empty();
    while v.len() > 0
        invariant
            all == taken + v@,
            all == groups@,
            forall|a: int| 0 <= a < taken.len() ==> r@.contains(#[trigger] taken[a]),
            forall|a: int, b: int| 0 <= a < b < all.len() ==> comps(#[trigger] all[a].0@) != comps(#[trigger] all[b].0@),
            forall|a: int| 0 <= a < r@.len() ==> taken.contains(#[trigger] r@[a]),
            forall|a: int, b: int| 0 <= a < b < r@.len() ==> path_lt(#[trigger] r@[a].0@, #[trigger] r@[b].0@),
        decreases v.len(),
    {
        let x = v.remove(0);
        let ghost old_taken = taken;
        proof {
            taken = taken.push(x);
            assert(all =~= taken + v@);
        }
        let mut p: usize = 0;
        while p < r.len() && crate::order::path_before(r[p].0.as_str(), x.0.as_str())
            invariant
                p <= r@.len(),
                forall|a: int| 0 <= a < p ==> path_lt(#[trigger] r@[a].0@, x.0@),
            decreases r.len() - p,
        {
            p += 1;
        }
        let ghost old_r = r@;
        proof {
            if p < old_r.len() {
                // `x` is distinct (by components) from every earlier group.
                assert(old_taken.contains(old_r[p as int]));
                let k = choose|k: int| 0 <= k < old_taken.len() && old_taken[k] == old_r[p as int];
                assert(all[k] == old_r[p as int]);
                assert(all[old_taken.len() as int] == x);
                crate::order::lemma_path_order(old_r[p as int].0@, x.0@, x.0@);
                crate::order::lemma_path_order(x.0@, old_r[p as int].0@, x.0@);
                assert(path_lt(x.0@, old_r[p as int].0@));
            }
        }
        r.insert(p, x);
        proof {
            assert forall|a: int| 0 <= a < r@.len() implies taken.contains(#[trigger] r@[a]) by {
                if a < p {
                    assert(r@[a] == old_r[a]);
                    assert(old_taken.contains(old_r[a]));
                    let k = choose|k: int| 0 <= k < old_taken.len() && old_taken[k] == old_r[a];
                    assert(taken[k] == old_r[a]);
                } else if a == p {
                    assert(taken[taken.len() - 1] == x);
                } else {
                    assert(r@[a] == old_r[a - 1]);
                    assert(old_taken.contains(old_r[a - 1]));
                    let k = choose|k: int| 0 <= k < old_taken.len() && old_taken[k] == old_r[a - 1];
                    assert(taken[k] == old_r[a - 1]);
                }
            }
            assert forall|a: int| 0 <= a < taken.len() implies r@.contains(#[trigger] taken[a]) by {
                if a < old_taken.len() {
                    assert(taken[a] == old_taken[a]);
                    assert(old_r.contains(old_taken[a]));
                    let k = choose|k: int| 0 <= k < old_r.len() && old_r[k] == old_taken[a];
                    if k < p {
                        assert(r@[k] == old_r[k]);
                    } else {
                        assert(r@[k + 1] == old_r[k]);
                    }
                } else {
                    assert(r@[p as int] == x);
                }
            }
            assert forall|a: int, b: int| 0 <= a < b < r@.len() implies path_lt(#[trigger] r@[a].0@, #[trigger] r@[b].0@) by {
                if b < p {
                    assert(r@[a] == old_r[a] && r@[b] == old_r[b]);
                } else if b == p {
                    assert(r@[a] == old_r[a]);
                } else if a < p {
                    assert(r@[a] == old_r[a] && r@[b] == old_r[b - 1]);
                    crate::order::lemma_path_order(old_r[a].0@, x.0@, old_r[b - 1].0@);
                } else if a == p {
                    assert(r@[b] == old_r[b - 1]);
                    if b - 1 > p {
                        crate::order::lemma_path_order(x.0@, old_r[p as int].0@, old_r[b - 1].0@);
                    }
                } else {
                    assert(r@[a] == old_r[a - 1] && r@[b] == old_r[b - 1]);
                }
            }
        }
    }
    assert(all =~= taken);
    proof {
        assert forall|a: int| 0 <= a < r@.len() implies groups@.contains(#[trigger] r@[a]) by {
            assert(taken.contains(r@[a]));
        }
    }
    r
}

} // verus!

verus! {

/// Spans that start in the text, run forwards and follow one another
/// without overlapping (touching is fine).
pub open spec fn ordered_spans(s: Seq<EditView>) -> bool {
    &&& forall|i: int| 0 <= i < s.len() ==> 0 <= (#[trigger] s[i]).0 <= s[i].1
    &&& forall|i: int, j: int| 0 <= i < j < s.len() ==> (#[trigger] s[i]).1 <= (#[trigger] s[j]).0
}

/// The original text between the spans, each span replaced by its new
/// text: `o[..s0] + new0 + o[e0..s1] + new1 + ... + o[ek..]`.
pub open spec fn woven(o: Seq<u8>, s: Seq<EditView>) -> Seq<u8>
    decreases s.len(),
{
    if s.len() == 0 {
        o
    } else {
        let last = s.last();
        woven(o.subrange(0, last.0), s.drop_last()) + utf8(last.3) + o.subrange(last.1, o.len() as int)
    }
}

proof fn lemma_ordered_front(s: Seq<EditView>)
    requires
        ordered_spans(s),
        s.len() > 0,
    ensures
        ordered_spans(s.drop_last()),
        forall|i: int| 0 <= i < s.len() - 1 ==> (#[trigger] s.drop_last()[i]).1 <= s.last().0,
{
    assert forall|i: int| 0 <= i < s.len() - 1 implies (#[trigger] s.drop_last()[i]).1 <= s.last().0 by {
        assert(s.drop_last()[i] == s[i]);
        assert(s[i].1 <= s[s.len() - 1].0);
    }
    assert forall|i: int, j: int| 0 <= i < j < s.len() - 1 implies (#[trigger] s.drop_last()[i]).1 <= (#[trigger] s.drop_last()[j]).0 by {
        assert(s[i].1 <= s[j].0);
    }
}

/// Edits that all lie inside `p` apply to `p + q` exactly as to `p`,
/// with `q` carried along.
proof fn lemma_apply_prefix(p: Seq<u8>, q: Seq<u8>, s: Seq<EditView>)
    requires
        ordered_spans(s),
        forall|i: int| 0 <= i < s.len() ==> (#[trigger] s[i]).1 <= p.len(),
        apply_backwards(p + q, s) is Ok,
    ensures
        apply_backwards(p, s) is Ok,
        apply_backwards(p + q, s) == Ok::<Seq<u8>, EditView>(apply_backwards(p, s)->Ok_0 + q),
    decreases s.len(),
{
    if s.len() == 0 {
    } else {
        let m = s.last();
        assert(m == s[s.len() - 1]);
        let pq = p + q;
        assert(edit_fits(pq, m));
        assert(pq.subrange(m.0, m.1) =~= p.subrange(m.0, m.1));
        if m.0 < p.len() {
            assert(pq[m.0] == p[m.0]);
        }
        assert(edit_fits(p, m));
        let sp = splice(p, m);
        assert(splice(pq, m) =~= sp + q);
        lemma_ordered_front(s);
        assert forall|i: int| 0 <= i < s.drop_last().len() implies (#[trigger] s.drop_last()[i]).1 <= sp.len() by {
            assert(sp.len() >= m.0);
        }
        lemma_apply_prefix(sp, q, s.drop_last());
    }
}

/// Well-ordered edits change only their spans: applying them keeps every
/// byte between the spans as it was and puts each span's new text in its
/// place.
pub proof fn law_edits_touch_only_their_spans(o: Seq<u8>, s: Seq<EditView>)
    requires
        ordered_spans(s),
        apply_backwards(o, s) is Ok,
    ensures
        apply_backwards(o, s) == Ok::<Seq<u8>, EditView>(woven(o, s)),
    decreases s.len(),
{
    if s.len() > 0 {
        let m = s.last();
        assert(m == s[s.len() - 1]);
        assert(edit_fits(o, m));
        let p = o.subrange(0, m.0);
        let q = utf8(m.3) + o.subrange(m.1, o.len() as int);
        assert(splice(o, m) =~= p + q);
        lemma_ordered_front(s);
        assert forall|i: int| 0 <= i < s.drop_last().len() implies (#[trigger] s.drop_last()[i]).1 <= p.len() by {}
        lemma_apply_prefix(p, q, s.drop_last());
        law_edits_touch_only_their_spans(p, s.drop_last());
        assert(woven(o, s) == woven(p, s.drop_last()) + q) by {
            assert(woven(p, s.drop_last()) + utf8(m.3) + o.subrange(m.1, o.len() as int) =~= woven(p, s.drop_last()) + q);
        }
    }
}

} // verus!

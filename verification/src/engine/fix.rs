//! Fix planning: run the language rules over the indexed files and gather
//! their candidates. A [`FixPlan`] is pure data, so dry runs and JSON
//! output render it without any write, and applying reuses the edit
//! engine behind moves.
//!
//! Overlap policy: candidates from different rules may touch the same
//! bytes (`import-order` rewrites the whole block an `unused-import`
//! deletion sits in). [`prune_overlaps`] resolves that per file — urgent
//! rules win, the loser becomes a manual "skipped" report and converges
//! on the next run — instead of rejecting the whole plan; the edit
//! engine's overlap rejection stays as the backstop.

use vstd::prelude::*;

use crate::engine::apply::fsops::EditView;
use crate::engine::index::Index;
use crate::engine::Edit;
use crate::map::TextMap;
use crate::order::texts;
use crate::parser::{fix_view, fix_views, fixers_for, severity_rank, Fix, FixCandidate, FixView, Fixer, SourceLanguage, language_of_path, rule_names};
use crate::text::{push_str, str_eq};

verus! {

/// What a deferred candidate's message gains.
pub open spec fn skipped_note() -> Seq<char> {
    " (skipped: overlaps a higher-priority fix, re-run after applying)"@
}

/// Candidate `a` is handled before `b`: more urgent first, then earlier.
pub open spec fn handled_before(a: FixView, b: FixView) -> bool {
    severity_rank(a.2) < severity_rank(b.2) || (severity_rank(a.2) == severity_rank(b.2) && a.4 < b.4)
}

/// Index (into `r`, scanned from `i`) of the first candidate handled after
/// candidate `x`.
pub open spec fn first_handled_after(cs: Seq<FixView>, r: Seq<int>, x: int, i: int) -> int
    decreases r.len() - i,
{
    if i >= r.len() {
        r.len() as int
    } else if handled_before(cs[x], cs[r[i]]) {
        i
    } else {
        first_handled_after(cs, r, x, i + 1)
    }
}

/// The order candidates `0..n` are handled in: by (severity rank, span
/// start), ties in input order.
pub open spec fn handling_order(cs: Seq<FixView>, n: int) -> Seq<int>
    decreases n,
{
    if n <= 0 {
        Seq::empty()
    } else {
        let r = handling_order(cs, n - 1);
        r.insert(first_handled_after(cs, r, n - 1, 0), n - 1)
    }
}

/// The handling order lists every candidate once.
pub proof fn lemma_handling_order_len(cs: Seq<FixView>, n: int)
    requires
        0 <= n,
    ensures
        handling_order(cs, n).len() == n,
    decreases n,
{
    if n > 0 {
        lemma_handling_order_len(cs, n - 1);
        lemma_first_handled_after_bound(cs, handling_order(cs, n - 1), n - 1, 0);
    }
}

/// [`first_handled_after`] stays within `i..=r.len()`.
pub proof fn lemma_first_handled_after_bound(cs: Seq<FixView>, r: Seq<int>, x: int, i: int)
    requires
        0 <= i <= r.len(),
    ensures
        i <= first_handled_after(cs, r, x, i) <= r.len(),
    decreases r.len() - i,
{
    if i < r.len() && !handled_before(cs[x], cs[r[i]]) {
        lemma_first_handled_after_bound(cs, r, x, i + 1);
    }
}

/// Some edit of `edits` overlaps an accepted span (`a.start < e.end &&
/// e.start < a.end`: touching spans and insertions at a boundary do not).
pub open spec fn conflicts(edits: Seq<EditView>, accepted: Seq<(int, int)>) -> bool {
    exists|k: int, m: int| 0 <= k < edits.len() && 0 <= m < accepted.len()
        && #[trigger] accepted[m].0 < #[trigger] edits[k].1 && edits[k].0 < accepted[m].1
}

/// The candidate downgraded to a manual report: edits dropped, not
/// auto-fixable, message noted.
pub open spec fn deferred(c: FixView) -> FixView {
    (c.0, c.1 + skipped_note(), c.2, false, c.4, c.5, Seq::empty(), c.7)
}

/// The spans of some edits.
pub open spec fn spans(edits: Seq<EditView>) -> Seq<(int, int)> {
    edits.map_values(|e: EditView| (e.0, e.1))
}

/// The candidates and accepted spans after handling the first `k`
/// candidates of `ord`.
pub open spec fn prune_run(cs: Seq<FixView>, ord: Seq<int>, k: int) -> (Seq<FixView>, Seq<(int, int)>)
    decreases k,
{
    if k <= 0 {
        (cs, Seq::empty())
    } else {
        let (cur, acc) = prune_run(cs, ord, k - 1);
        let i = ord[k - 1];
        if conflicts(cur[i].6, acc) {
            (cur.update(i, deferred(cur[i])), acc)
        } else {
            (cur, acc + spans(cur[i].6))
        }
    }
}

/// The candidates after overlap resolution.
pub open spec fn pruned(cs: Seq<FixView>) -> Seq<FixView> {
    prune_run(cs, handling_order(cs, cs.len() as int), cs.len() as int).0
}

/// Index of the first candidate of `r` from `i` on that starts after `x`.
pub open spec fn first_start_after(r: Seq<FixView>, x: FixView, i: int) -> int
    decreases r.len() - i,
{
    if i >= r.len() {
        r.len() as int
    } else if r[i].4 > x.4 {
        i
    } else {
        first_start_after(r, x, i + 1)
    }
}

/// The candidates sorted by span start; equal starts keep their order.
pub open spec fn by_start(s: Seq<FixView>) -> Seq<FixView>
    decreases s.len(),
{
    if s.len() == 0 {
        Seq::empty()
    } else {
        let r = by_start(s.drop_last());
        r.insert(first_start_after(r, s.last(), 0), s.last())
    }
}

/// The candidates of the first `k` rules of `fs` that pass the rule
/// filter, rule after rule.
pub open spec fn found(fs: Seq<Fixer>, rule: Option<Seq<char>>, path: Seq<char>, source: Seq<char>, index: Index, k: int) -> Seq<FixView>
    decreases k,
{
    if k <= 0 {
        Seq::empty()
    } else {
        let prev = found(fs, rule, path, source, index, k - 1);
        let f = fs[k - 1];
        if rule is None || rule == Some(f.rule_spec()) {
            prev + f.fixes_spec(path, source, index)
        } else {
            prev
        }
    }
}

/// The candidates one file gets: every selected rule of its language,
/// overlaps resolved, sorted by span start.
pub open spec fn file_fixes(lang: SourceLanguage, rule: Option<Seq<char>>, path: Seq<char>, source: Seq<char>, index: Index) -> Seq<FixView> {
    let fs = crate::parser::fixers_of(lang);
    by_start(pruned(found(fs, rule, path, source, index, fs.len() as int)))
}

/// A plan as the contracts see it: each file with its candidates.
pub type PlanView = Seq<(Seq<char>, Seq<FixView>)>;

/// Every candidate found by one fix run, grouped per file: files in path
/// order, candidates of a file by span start.
pub struct FixPlan {
    /// Project-relative file and its candidates (non-empty groups only).
    pub files: Vec<(String, Vec<FixCandidate>)>,
}

impl FixPlan {
    /// The plan as the contracts see it.
    pub open spec fn view_of(&self) -> PlanView {
        self.files@.map_values(|g: (String, Vec<FixCandidate>)| (g.0@, fix_views(g.1@)))
    }

    /// `true` when no rule matched anything.
    pub fn is_empty(&self) -> (r: bool)
        ensures
            r == (self.files@.len() == 0),
    {
        self.files.len() == 0
    }

    /// Total candidates across all files.
    pub fn total(&self) -> (r: usize)
        requires
            total_of(self.view_of(), self.view_of().len() as int) <= usize::MAX,
        ensures
            r == total_of(self.view_of(), self.view_of().len() as int),
    {
        let ghost v = self.view_of();
        let mut sum: usize = 0;
        let mut i: usize = 0;
        while i < self.files.len()
            invariant
                v == self.view_of(),
                i <= v.len(),
                sum == total_of(v, i as int),
                total_of(v, v.len() as int) <= usize::MAX,
            decreases self.files.len() - i,
        {
            proof {
                lemma_total_monotone(v, i + 1, v.len() as int);
            }
            assert(v[i as int].1.len() == self.files@[i as int].1@.len());
            sum = sum + self.files[i].1.len();
            i += 1;
        }
        sum
    }

    /// The auto-fixable candidates as per-file edit groups, ready for the
    /// edit engine; files with only manual candidates drop out.
    pub fn auto_edits(&self) -> (r: Vec<(String, Vec<Edit>)>)
        ensures
            r@.map_values(|g: (String, Vec<Edit>)| (g.0@, crate::engine::apply::fsops::edit_views(g.1@)))
                == auto_groups(self.view_of(), self.view_of().len() as int),
    {
        let ghost v = self.view_of();
        let mut out: Vec<(String, Vec<Edit>)> = Vec::new();
        let mut i: usize = 0;
        while i < self.files.len()
            invariant
                v == self.view_of(),
                i <= v.len(),
                out@.map_values(|g: (String, Vec<Edit>)| (g.0@, crate::engine::apply::fsops::edit_views(g.1@)))
                    == auto_groups(v, i as int),
            decreases self.files.len() - i,
        {
            let (file, cands) = (&self.files[i].0, &self.files[i].1);
            assert(v[i as int] == (file@, fix_views(cands@)));
            let edits = auto_of(cands);
            if edits.len() > 0 {
                let ghost before = out@;
                out.push((file.clone(), edits));
                assert(out@.map_values(|g: (String, Vec<Edit>)| (g.0@, crate::engine::apply::fsops::edit_views(g.1@)))
                    =~= before.map_values(|g: (String, Vec<Edit>)| (g.0@, crate::engine::apply::fsops::edit_views(g.1@))).push(
                    (file@, auto_edit_views(fix_views(cands@), cands@.len() as int))));
            }
            i += 1;
        }
        out
    }
}

/// The candidates of the first `n` files.
pub open spec fn total_of(v: PlanView, n: int) -> int
    decreases n,
{
    if n <= 0 {
        0
    } else {
        total_of(v, n - 1) + v[n - 1].1.len()
    }
}

/// [`total_of`] grows with `n`.
pub proof fn lemma_total_monotone(v: PlanView, a: int, b: int)
    requires
        0 <= a <= b,
    ensures
        total_of(v, a) <= total_of(v, b),
    decreases b - a,
{
    if a < b {
        lemma_total_monotone(v, a, b - 1);
    }
}

/// The edits of the auto-fixable candidates among the first `n`, in order.
pub open spec fn auto_edit_views(cs: Seq<FixView>, n: int) -> Seq<EditView>
    decreases n,
{
    if n <= 0 {
        Seq::empty()
    } else if cs[n - 1].3 {
        auto_edit_views(cs, n - 1) + cs[n - 1].6
    } else {
        auto_edit_views(cs, n - 1)
    }
}

/// The non-empty auto edit groups of the first `n` files.
pub open spec fn auto_groups(v: PlanView, n: int) -> Seq<(Seq<char>, Seq<EditView>)>
    decreases n,
{
    if n <= 0 {
        Seq::empty()
    } else {
        let prev = auto_groups(v, n - 1);
        let edits = auto_edit_views(v[n - 1].1, v[n - 1].1.len() as int);
        if edits.len() > 0 {
            prev.push((v[n - 1].0, edits))
        } else {
            prev
        }
    }
}

// The edits of the auto-fixable candidates, in order.
fn auto_of(cands: &Vec<FixCandidate>) -> (r: Vec<Edit>)
    ensures
        crate::engine::apply::fsops::edit_views(r@) == auto_edit_views(fix_views(cands@), cands@.len() as int),
{
    let ghost cv = fix_views(cands@);
    let mut out: Vec<Edit> = Vec::new();
    let mut i: usize = 0;
    while i < cands.len()
        invariant
            cv == fix_views(cands@),
            i <= cands@.len(),
            crate::engine::apply::fsops::edit_views(out@) == auto_edit_views(cv, i as int),
        decreases cands.len() - i,
    {
        if cands[i].auto_fixable {
            let es = &cands[i].edits;
            let ghost head = crate::engine::apply::fsops::edit_views(out@);
            let mut k: usize = 0;
            while k < es.len()
                invariant
                    k <= es@.len(),
                    crate::engine::apply::fsops::edit_views(out@) == head + crate::engine::apply::fsops::edit_views(es@).take(k as int),
                decreases es.len() - k,
            {
                let ghost before = out@;
                out.push(es[k].clone());
                assert(crate::engine::apply::fsops::edit_views(out@) =~= crate::engine::apply::fsops::edit_views(before).push(es@[k as int].view_of()));
                assert(crate::engine::apply::fsops::edit_views(es@).take(k + 1) =~= crate::engine::apply::fsops::edit_views(es@).take(k as int).push(es@[k as int].view_of()));
                k += 1;
            }
            assert(crate::engine::apply::fsops::edit_views(es@).take(es@.len() as int) =~= crate::engine::apply::fsops::edit_views(es@));
        }
        i += 1;
    }
    out
}

// Whether candidate `x` is handled before candidate `y`.
fn before_in_order(x: &FixCandidate, y: &FixCandidate) -> (r: bool)
    ensures
        r == handled_before(fix_view(*x), fix_view(*y)),
{
    let (rx, ry) = (x.severity.rank(), y.severity.rank());
    rx < ry || (rx == ry && x.span.start < y.span.start)
}

// The handling order of the candidates.
fn order_of(cs: &Vec<FixCandidate>) -> (r: Vec<usize>)
    ensures
        r@.map_values(|i: usize| i as int) == handling_order(fix_views(cs@), cs@.len() as int),
        forall|k: int| 0 <= k < r@.len() ==> r@[k] < cs@.len(),
{
    let ghost cv = fix_views(cs@);
    let mut r: Vec<usize> = Vec::new();
    let mut n: usize = 0;
    while n < cs.len()
        invariant
            cv == fix_views(cs@),
            n <= cs@.len(),
            r@.map_values(|i: usize| i as int) == handling_order(cv, n as int),
            forall|k: int| 0 <= k < r@.len() ==> r@[k] < n,
        decreases cs.len() - n,
    {
        let ghost rv = r@.map_values(|i: usize| i as int);
        let mut p: usize = 0;
        while p < r.len() && !before_in_order(&cs[n], &cs[r[p]])
            invariant
                p <= r@.len(),
                n < cs@.len(),
                rv == r@.map_values(|i: usize| i as int),
                forall|k: int| 0 <= k < r@.len() ==> r@[k] < n,
                cv == fix_views(cs@),
                first_handled_after(cv, rv, n as int, 0) == first_handled_after(cv, rv, n as int, p as int),
            decreases r.len() - p,
        {
            p += 1;
        }
        assert(first_handled_after(cv, rv, n as int, 0) == p);
        r.insert(p, n);
        assert(r@.map_values(|i: usize| i as int) =~= rv.insert(p as int, n as int));
        n += 1;
    }
    r
}

// Whether some edit overlaps an accepted span.
fn overlaps_any(edits: &Vec<Edit>, accepted: &Vec<(usize, usize)>) -> (r: bool)
    ensures
        r == conflicts(crate::engine::apply::fsops::edit_views(edits@), accepted@.map_values(|a: (usize, usize)| (a.0 as int, a.1 as int))),
{
    let ghost ev = crate::engine::apply::fsops::edit_views(edits@);
    let ghost av = accepted@.map_values(|a: (usize, usize)| (a.0 as int, a.1 as int));
    let mut k: usize = 0;
    while k < edits.len()
        invariant
            ev == crate::engine::apply::fsops::edit_views(edits@),
            av == accepted@.map_values(|a: (usize, usize)| (a.0 as int, a.1 as int)),
            k <= edits@.len(),
            forall|k2: int, m: int| 0 <= k2 < k && 0 <= m < av.len() ==> !(#[trigger] av[m].0 < #[trigger] ev[k2].1 && ev[k2].0 < av[m].1),
        decreases edits.len() - k,
    {
        let mut m: usize = 0;
        while m < accepted.len()
            invariant
                ev == crate::engine::apply::fsops::edit_views(edits@),
                av == accepted@.map_values(|a: (usize, usize)| (a.0 as int, a.1 as int)),
                k < edits@.len(),
                m <= accepted@.len(),
                forall|m2: int| 0 <= m2 < m ==> !(#[trigger] av[m2].0 < ev[k as int].1 && ev[k as int].0 < av[m2].1),
            decreases accepted.len() - m,
        {
            let a = accepted[m];
            let e = &edits[k];
            if a.0 < e.span.end && e.span.start < a.1 {
                assert(av[m as int].0 < ev[k as int].1 && ev[k as int].0 < av[m as int].1);
                return true;
            }
            m += 1;
        }
        k += 1;
    }
    false
}

/// Resolve cross-rule byte conflicts before the engine sees them: handle
/// candidates by (severity rank, span start), and downgrade any whose
/// edits overlap an already accepted edit to a manual report with its
/// edits dropped. Insertions at a replaced block's boundary coexist with
/// the replacement.
pub fn prune_overlaps(candidates: &mut Vec<FixCandidate>)
    ensures
        fix_views(final(candidates)@) == pruned(fix_views(old(candidates)@)),
{
    let ghost cs0 = fix_views(candidates@);
    proof {
        lemma_handling_order_len(cs0, cs0.len() as int);
    }
    let order = order_of(candidates);
    let ghost ord = order@.map_values(|i: usize| i as int);
    let mut accepted: Vec<(usize, usize)> = Vec::new();
    let mut k: usize = 0;
    while k < order.len()
        invariant
            ord == order@.map_values(|i: usize| i as int),
            ord == handling_order(cs0, cs0.len() as int),
            forall|q: int| 0 <= q < order@.len() ==> order@[q] < candidates@.len(),
            candidates@.len() == cs0.len(),
            k <= order@.len(),
            (fix_views(candidates@), accepted@.map_values(|a: (usize, usize)| (a.0 as int, a.1 as int)))
                == prune_run(cs0, ord, k as int),
        decreases order.len() - k,
    {
        let i = order[k];
        assert(ord[k as int] == i as int);
        let ghost cur = fix_views(candidates@);
        let ghost acc = accepted@.map_values(|a: (usize, usize)| (a.0 as int, a.1 as int));
        if overlaps_any(&candidates[i].edits, &accepted) {
            let mut c = candidates.remove(i);
            c.edits = Vec::new();
            c.auto_fixable = false;
            push_str(&mut c.message, " (skipped: overlaps a higher-priority fix, re-run after applying)");
            candidates.insert(i, c);
            assert(crate::engine::apply::fsops::edit_views(c.edits@) =~= Seq::<EditView>::empty());
            assert(fix_views(candidates@) =~= cur.update(i as int, deferred(cur[i as int])));
        } else {
            let es = &candidates[i].edits;
            let mut q: usize = 0;
            while q < es.len()
                invariant
                    q <= es@.len(),
                    accepted@.map_values(|a: (usize, usize)| (a.0 as int, a.1 as int))
                        == acc + spans(crate::engine::apply::fsops::edit_views(es@)).take(q as int),
                decreases es.len() - q,
            {
                let ghost before = accepted@;
                accepted.push((es[q].span.start, es[q].span.end));
                assert(accepted@.map_values(|a: (usize, usize)| (a.0 as int, a.1 as int))
                    =~= before.map_values(|a: (usize, usize)| (a.0 as int, a.1 as int)).push((es@[q as int].span.start as int, es@[q as int].span.end as int)));
                assert(spans(crate::engine::apply::fsops::edit_views(es@)).take(q + 1)
                    =~= spans(crate::engine::apply::fsops::edit_views(es@)).take(q as int).push((es@[q as int].span.start as int, es@[q as int].span.end as int)));
                q += 1;
            }
            assert(spans(crate::engine::apply::fsops::edit_views(es@)).take(es@.len() as int) =~= spans(crate::engine::apply::fsops::edit_views(es@)));
        }
        k += 1;
    }
}

// The candidates sorted by span start, stable.
fn sort_by_start(v: Vec<FixCandidate>) -> (r: Vec<FixCandidate>)
    ensures
        fix_views(r@) == by_start(fix_views(v@)),
{
    let mut v = v;
    let mut r: Vec<FixCandidate> = Vec::new();
    let ghost vv = fix_views(v@);
    let total = v.len();
    let mut i: usize = 0;
    while v.len() > 0
        invariant
            i + v@.len() == vv.len(),
            vv.len() <= usize::MAX,
            fix_views(v@) == vv.subrange(i as int, vv.len() as int),
            fix_views(r@) == by_start(vv.take(i as int)),
        decreases v@.len(),
    {
        let ghost vold = v@;
        let x = v.remove(0);
        let ghost xv = fix_view(x);
        assert(fix_views(vold)[0] == vv[i as int]);
        assert(xv == vv[i as int]);
        let ghost rv = fix_views(r@);
        let mut p: usize = 0;
        while p < r.len() && r[p].span.start <= x.span.start
            invariant
                p <= r@.len(),
                rv == fix_views(r@),
                xv == fix_view(x),
                first_start_after(rv, xv, 0) == first_start_after(rv, xv, p as int),
            decreases r.len() - p,
        {
            p += 1;
        }
        assert(first_start_after(rv, xv, 0) == p);
        r.insert(p, x);
        proof {
            let t = vv.take(i + 1);
            assert(t.drop_last() =~= vv.take(i as int));
            assert(fix_views(r@) =~= rv.insert(p as int, xv));
            assert(v@ =~= vold.subrange(1, vold.len() as int));
            assert(fix_views(v@) =~= fix_views(vold).subrange(1, vold.len() as int));
            assert(fix_views(v@) =~= vv.subrange(i + 1, vv.len() as int));
        }
        i += 1;
    }
    assert(vv.take(i as int) =~= vv);
    r
}

// The candidates of the selected rules, rule after rule.
fn run_rules(fs: &Vec<Fixer>, rule: Option<&str>, path: &str, source: &str, index: &Index) -> (r: Vec<FixCandidate>)
    ensures
        fix_views(r@) == found(fs@, opt_text(rule), path@, source@, *index, fs@.len() as int),
{
    let mut out: Vec<FixCandidate> = Vec::new();
    let mut k: usize = 0;
    while k < fs.len()
        invariant
            k <= fs@.len(),
            fix_views(out@) == found(fs@, opt_text(rule), path@, source@, *index, k as int),
        decreases fs.len() - k,
    {
        let f = &fs[k];
        let selected = match rule {
            None => true,
            Some(name) => str_eq(f.rule(), name),
        };
        if selected {
            let more = f.fixes(path, source, index);
            let ghost head = fix_views(out@);
            let mut q: usize = 0;
            let mut more = more;
            let ghost mv = fix_views(more@);
            let total = more.len();
            while more.len() > 0
                invariant
                    q + more@.len() == mv.len(),
                    mv.len() <= usize::MAX,
                    fix_views(more@) == mv.subrange(q as int, mv.len() as int),
                    fix_views(out@) == head + mv.take(q as int),
                decreases more@.len(),
            {
                let ghost mold = more@;
                let c = more.remove(0);
                assert(fix_views(mold)[0] == mv[q as int]);
                assert(fix_view(c) == mv[q as int]);
                assert(more@ =~= mold.subrange(1, mold.len() as int));
                assert(fix_views(more@) =~= fix_views(mold).subrange(1, mold.len() as int));
                let ghost before = out@;
                out.push(c);
                assert(fix_views(out@) =~= fix_views(before).push(mv[q as int]));
                assert(mv.take(q + 1) =~= mv.take(q as int).push(mv[q as int]));
                assert(fix_views(more@) =~= mv.subrange(q + 1, mv.len() as int));
                q += 1;
            }
            assert(mv.take(q as int) =~= mv);
        }
        k += 1;
    }
    out
}

/// An optional text as the contracts see it.
pub open spec fn opt_text(s: Option<&str>) -> Option<Seq<char>> {
    match s {
        Some(t) => Some(t@),
        None => None,
    }
}

/// The candidates one file gets (see [`file_fixes`]).
pub fn fixes_for_file(lang: SourceLanguage, rule: Option<&str>, path: &str, source: &str, index: &Index) -> (r: Vec<FixCandidate>)
    ensures
        fix_views(r@) == file_fixes(lang, opt_text(rule), path@, source@, *index),
{
    let fs = fixers_for(lang);
    let mut found = run_rules(&fs, rule, path, source, index);
    prune_overlaps(&mut found);
    sort_by_start(found)
}

/// The plan over `files` (in order) whose texts `texts` holds: every
/// selected rule of each file's language.
pub open spec fn plan_of(files: Seq<Seq<char>>, texts: Map<Seq<char>, String>, rule: Option<Seq<char>>, index: Index, n: int) -> PlanView
    decreases n,
{
    if n <= 0 {
        Seq::empty()
    } else {
        let prev = plan_of(files, texts, rule, index, n - 1);
        let f = files[n - 1];
        match language_of_path(f) {
            None => prev,
            Some(lang) => if texts.contains_key(f) {
                let cs = file_fixes(lang, rule, f, texts[f]@, index);
                if cs.len() > 0 {
                    prev.push((f, cs))
                } else {
                    prev
                }
            } else {
                prev
            },
        }
    }
}

/// Run every rule of each indexed file's language — or only the rule
/// named `rule` — over the file contents in `texts` (keyed by
/// project-relative path). Files without contents there (vanished or not
/// valid UTF-8 since indexing) are skipped.
pub fn plan_fix(index: &Index, texts_by_file: &TextMap<String>, rule: Option<&str>) -> (r: FixPlan)
    ensures
        exists|order: Seq<String>| {
            let files = #[trigger] crate::engine::index::files::string_views(order);
            &&& files.to_set() == index.files@
            &&& files.no_duplicates()
            &&& crate::order::sorted_by(order)
            &&& r.view_of() == plan_of(files, texts_by_file@, opt_text(rule), *index, files.len() as int)
        },
{
    let order = index.files.sorted();
    let ghost fv = crate::engine::index::files::string_views(order@);
    let mut out: Vec<(String, Vec<FixCandidate>)> = Vec::new();
    let mut i: usize = 0;
    while i < order.len()
        invariant
            fv == crate::engine::index::files::string_views(order@),
            i <= order@.len(),
            out@.map_values(|g: (String, Vec<FixCandidate>)| (g.0@, fix_views(g.1@)))
                == plan_of(fv, texts_by_file@, opt_text(rule), *index, i as int),
        decreases order.len() - i,
    {
        let f = &order[i];
        assert(fv[i as int] == f@);
        match SourceLanguage::for_path(f.as_str()) {
            None => {},
            Some(lang) => match texts_by_file.get(f.as_str()) {
                None => {},
                Some(source) => {
                    let cs = fixes_for_file(lang, rule, f.as_str(), source.as_str(), index);
                    if cs.len() > 0 {
                        let ghost before = out@;
                        out.push((f.clone(), cs));
                        assert(out@.map_values(|g: (String, Vec<FixCandidate>)| (g.0@, fix_views(g.1@)))
                            =~= before.map_values(|g: (String, Vec<FixCandidate>)| (g.0@, fix_views(g.1@))).push(
                            (f@, file_fixes(lang, opt_text(rule), f@, source@, *index))));
                    }
                },
            },
        }
        i += 1;
    }
    let r = FixPlan { files: out };
    assert(r.view_of() =~= plan_of(fv, texts_by_file@, opt_text(rule), *index, fv.len() as int));
    r
}

} // verus!

verus! {

/// No edit of `a` overlaps an edit of `b` (in the sense of [`conflicts`]:
/// spans that merely touch, and insertions at a boundary, do not).
pub open spec fn disjoint_edits(a: Seq<EditView>, b: Seq<EditView>) -> bool {
    forall|k: int, m: int| 0 <= k < a.len() && 0 <= m < b.len() ==> !(#[trigger] a[k].0 < #[trigger] b[m].1 && b[m].0 < a[k].1)
}

/// The handling order is a permutation of the candidates' indices.
pub proof fn lemma_handling_order_perm(cs: Seq<FixView>, n: int)
    requires
        0 <= n,
    ensures
        handling_order(cs, n).len() == n,
        forall|t: int| 0 <= t < n ==> 0 <= #[trigger] handling_order(cs, n)[t] < n,
        handling_order(cs, n).no_duplicates(),
        forall|x: int| 0 <= x < n ==> #[trigger] handling_order(cs, n).contains(x),
    decreases n,
{
    lemma_handling_order_len(cs, n);
    if n > 0 {
        lemma_handling_order_perm(cs, n - 1);
        let r = handling_order(cs, n - 1);
        let p = first_handled_after(cs, r, n - 1, 0);
        lemma_first_handled_after_bound(cs, r, n - 1, 0);
        let r2 = r.insert(p, n - 1);
        assert(handling_order(cs, n) == r2);
        assert forall|t: int| 0 <= t < n implies 0 <= #[trigger] r2[t] < n by {
            if t < p {
                assert(r2[t] == r[t]);
            } else if t > p {
                assert(r2[t] == r[t - 1]);
            }
        }
        assert forall|a: int, b: int| 0 <= a < r2.len() && 0 <= b < r2.len() && a != b implies r2[a] != r2[b] by {
            if a != p && b != p {
                let a1 = if a < p { a } else { a - 1 };
                let b1 = if b < p { b } else { b - 1 };
                assert(r2[a] == r[a1]);
                assert(r2[b] == r[b1]);
            } else if a == p {
                let b1 = if b < p { b } else { b - 1 };
                assert(r2[b] == r[b1]);
            } else {
                let a1 = if a < p { a } else { a - 1 };
                assert(r2[a] == r[a1]);
            }
        }
        assert forall|x: int| 0 <= x < n implies #[trigger] r2.contains(x) by {
            if x == n - 1 {
                assert(r2[p] == x);
            } else {
                assert(r.contains(x));
                let t = choose|t: int| 0 <= t < r.len() && r[t] == x;
                if t < p {
                    assert(r2[t] == x);
                } else {
                    assert(r2[t + 1] == x);
                }
            }
        }
    }
}

/// After handling the first `k` candidates of a duplicate-free order:
/// the unhandled ones are untouched, every kept edit of a handled one is
/// among the accepted spans, and two handled candidates never have
/// overlapping edits.
proof fn lemma_prune_run(cs: Seq<FixView>, ord: Seq<int>, k: int)
    requires
        0 <= k <= ord.len(),
        ord.no_duplicates(),
        forall|t: int| 0 <= t < ord.len() ==> 0 <= #[trigger] ord[t] < cs.len(),
    ensures
        prune_run(cs, ord, k).0.len() == cs.len(),
        forall|i: int| 0 <= i < cs.len() && !ord.take(k).contains(i) ==> #[trigger] prune_run(cs, ord, k).0[i] == cs[i],
        forall|i: int, q: int| 0 <= i < cs.len() && ord.take(k).contains(i) && 0 <= q < prune_run(cs, ord, k).0[i].6.len()
            ==> prune_run(cs, ord, k).1.contains(
            (#[trigger] prune_run(cs, ord, k).0[i].6[q].0, prune_run(cs, ord, k).0[i].6[q].1),
        ),
        forall|i: int, j: int| 0 <= i < cs.len() && 0 <= j < cs.len() && i != j && ord.take(k).contains(i) && ord.take(k).contains(j)
            ==> disjoint_edits(#[trigger] prune_run(cs, ord, k).0[i].6, #[trigger] prune_run(cs, ord, k).0[j].6),
    decreases k,
{
    if k == 0 {
        assert(ord.take(0) =~= Seq::<int>::empty());
    } else {
        lemma_prune_run(cs, ord, k - 1);
        let (cur, acc) = prune_run(cs, ord, k - 1);
        let i0 = ord[k - 1];
        let seen = ord.take(k - 1);
        assert(ord.take(k) =~= seen.push(i0));
        assert(!seen.contains(i0)) by {
            if seen.contains(i0) {
                let t = choose|t: int| 0 <= t < seen.len() && seen[t] == i0;
                assert(ord[t] == ord[k - 1]);
            }
        }
        assert(cur[i0] == cs[i0]);
        let (nc, na) = prune_run(cs, ord, k);
        if conflicts(cur[i0].6, acc) {
            assert(nc == cur.update(i0, deferred(cur[i0])));
            assert(na == acc);
            assert forall|i: int| 0 <= i < cs.len() && !ord.take(k).contains(i) implies #[trigger] nc[i] == cs[i] by {
                assert(!seen.contains(i));
                assert(i != i0) by {
                    assert(ord.take(k)[k - 1] == i0);
                }
            }
            assert forall|i: int, q: int| 0 <= i < cs.len() && ord.take(k).contains(i) && 0 <= q < nc[i].6.len()
                implies na.contains((#[trigger] nc[i].6[q].0, nc[i].6[q].1)) by {
                if i != i0 {
                    let t = choose|t: int| 0 <= t < ord.take(k).len() && ord.take(k)[t] == i;
                    assert(seen[t] == i);
                    assert(nc[i] == cur[i]);
                }
            }
            assert forall|i: int, j: int| 0 <= i < cs.len() && 0 <= j < cs.len() && i != j && ord.take(k).contains(i)
                && ord.take(k).contains(j) implies disjoint_edits(#[trigger] nc[i].6, #[trigger] nc[j].6) by {
                if i != i0 && j != i0 {
                    let t = choose|t: int| 0 <= t < ord.take(k).len() && ord.take(k)[t] == i;
                    assert(seen[t] == i);
                    let u = choose|u: int| 0 <= u < ord.take(k).len() && ord.take(k)[u] == j;
                    assert(seen[u] == j);
                }
            }
        } else {
            let added = spans(cur[i0].6);
            assert(nc == cur);
            assert(na == acc + added);
            assert forall|i: int| 0 <= i < cs.len() && !ord.take(k).contains(i) implies #[trigger] nc[i] == cs[i] by {
                assert(!seen.contains(i));
            }
            assert forall|i: int, q: int| 0 <= i < cs.len() && ord.take(k).contains(i) && 0 <= q < nc[i].6.len()
                implies na.contains((#[trigger] nc[i].6[q].0, nc[i].6[q].1)) by {
                if i == i0 {
                    assert(na[acc.len() + q] == added[q]);
                } else {
                    let t = choose|t: int| 0 <= t < ord.take(k).len() && ord.take(k)[t] == i;
                    assert(seen[t] == i);
                    assert(acc.contains((cur[i].6[q].0, cur[i].6[q].1)));
                    let m = choose|m: int| 0 <= m < acc.len() && acc[m] == (cur[i].6[q].0, cur[i].6[q].1);
                    assert(na[m] == acc[m]);
                }
            }
            assert forall|i: int, j: int| 0 <= i < cs.len() && 0 <= j < cs.len() && i != j && ord.take(k).contains(i)
                && ord.take(k).contains(j) implies disjoint_edits(#[trigger] nc[i].6, #[trigger] nc[j].6) by {
                if i != i0 && j != i0 {
                    let t = choose|t: int| 0 <= t < ord.take(k).len() && ord.take(k)[t] == i;
                    assert(seen[t] == i);
                    let u = choose|u: int| 0 <= u < ord.take(k).len() && ord.take(k)[u] == j;
                    assert(seen[u] == j);
                } else {
                    let o = if i == i0 { j } else { i };
                    let u = choose|u: int| 0 <= u < ord.take(k).len() && ord.take(k)[u] == o;
                    assert(seen[u] == o);
                    let e = cur[i0].6;
                    let f = cur[o].6;
                    assert forall|a: int, b: int| 0 <= a < e.len() && 0 <= b < f.len() implies !(e[a].0 < f[b].1 && f[b].0 < e[a].1) by {
                        assert(acc.contains((f[b].0, f[b].1)));
                        let m = choose|m: int| 0 <= m < acc.len() && acc[m] == (f[b].0, f[b].1);
                        assert(!(acc[m].0 < e[a].1 && e[a].0 < acc[m].1));
                    }
                }
            }
        }
    }
}

/// Overlap resolution leaves no two candidates with overlapping edits:
/// whatever reaches the edit engine from different candidates is
/// byte-disjoint.
pub proof fn law_accepted_fixes_never_overlap(cs: Seq<FixView>)
    ensures
        pruned(cs).len() == cs.len(),
        forall|i: int, j: int| 0 <= i < cs.len() && 0 <= j < cs.len() && i != j
            ==> disjoint_edits(#[trigger] pruned(cs)[i].6, #[trigger] pruned(cs)[j].6),
{
    let n = cs.len() as int;
    lemma_handling_order_perm(cs, n);
    let ord = handling_order(cs, n);
    lemma_prune_run(cs, ord, n);
    assert(ord.take(n) =~= ord);
}

} // verus!

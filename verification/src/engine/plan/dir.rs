//! Directory moves: relocate every indexed file under `source` into the
//! mirrored layout under `target`, merging the per-file rewrite plans.
//!
//! A directory move is exactly N file moves that must apply atomically
//! together, so it reuses the per-file planner and folds its rewrites; a
//! file that imports two moved classes from the same directory simply gets
//! both specifier edits. Files that exist on disk but are not indexable
//! (assets, binaries) cannot be rewritten and would silently stay behind —
//! they are reported as `left_behind` instead of being moved blindly.

use vstd::prelude::*;

use crate::engine::index::files::has_path;
use crate::engine::index::Index;
use crate::engine::plan::java::is_refusal;
use crate::engine::plan::{file_expected, file_refusal, file_rewrites, rewrite_views, FileMove, MovePlan, Rewrite,
    RewriteView};
use crate::engine::{concat3, rel_str, JmoveError, JmoveResult};
use crate::order::{sort_stable, sorted_by, texts, TotalPreorder};
use crate::path::{comp_text, comp_views, comps, comps_prefix, components, components_prefix, components_slice,
    join_path, path_of, path_text, rel_text, Comp, Component};
use crate::text::{chars_of, push_str, string_of};

verus! {

/// `p` lies at or below `base` (`Path::starts_with`).
pub open spec fn under(p: Seq<char>, base: Seq<char>) -> bool {
    comps_prefix(comps(base), comps(p))
}

/// Where member `f` of directory `s` lands under `t`.
pub open spec fn mirror(f: Seq<char>, s: Seq<char>, t: Seq<char>) -> Seq<char> {
    let fc = comps(f);
    join_path(t, path_of(fc.subrange(comps(s).len() as int, fc.len() as int)))
}

/// Some component of `p` starts with a dot.
pub open spec fn is_hidden(p: Seq<char>) -> bool {
    exists|i: int| 0 <= i < comps(p).len() && comp_text(#[trigger] comps(p)[i]).len() > 0
        && comp_text(comps(p)[i])[0] == '.'
}

/// The indexed files below `s`.
pub open spec fn members(index: Index, s: Seq<char>) -> Set<Seq<char>> {
    Set::new(|f: Seq<char>| index.files@.contains(f) && under(f, s))
}

/// A member move cannot go ahead: its destination is taken, or its own
/// planning is refused.
pub open spec fn blocked(index: Index, s: Seq<char>, t: Seq<char>, f: Seq<char>) -> bool {
    has_path(index.files@, mirror(f, s, t)) || file_refusal(index, f, mirror(f, s, t)) is Some
}

/// The destination of member `f` is an indexed file.
pub open spec fn collides(index: Index, s: Seq<char>, t: Seq<char>, f: Seq<char>) -> bool {
    members(index, s).contains(f) && has_path(index.files@, mirror(f, s, t))
}

/// The member whose block is reported: destinations are all checked
/// first, so the first member (in path order) whose destination is
/// taken; when none is, the first member whose own planning is refused.
pub open spec fn first_blocked(index: Index, s: Seq<char>, t: Seq<char>, f: Seq<char>) -> bool {
    if exists|g: Seq<char>| #[trigger] collides(index, s, t, g) {
        collides(index, s, t, f) && forall|g: Seq<char>| #[trigger] collides(index, s, t, g) ==> !crate::order::path_lt(g, f)
    } else {
        &&& members(index, s).contains(f)
        &&& blocked(index, s, t, f)
        &&& forall|g: Seq<char>| #[trigger] members(index, s).contains(g) && blocked(index, s, t, g) ==> !crate::order::path_lt(g, f)
    }
}

/// The error a blocked member produces.
pub open spec fn blocked_error(index: Index, s: Seq<char>, t: Seq<char>, f: Seq<char>, e: JmoveError) -> bool {
    let m = mirror(f, s, t);
    if has_path(index.files@, m) {
        e matches JmoveError::PlanRejected(msg) && msg@ == "Directory move: target '"@ + rel_text(m) + "' already exists"@
    } else {
        file_refusal(index, f, m) matches Some(refusal) && is_refusal(e, refusal)
    }
}

/// The rewrites of a sequence of moves, concatenated.
pub open spec fn moves_expected(index: Index, moves: Seq<FileMove>) -> Seq<RewriteView>
    decreases moves.len(),
{
    if moves.len() == 0 {
        Seq::empty()
    } else {
        moves_expected(index, moves.drop_last()) + file_expected(index, moves.last().source@, moves.last().target@)
    }
}

/// Paths in order of non-increasing component count.
pub open spec fn deepest_first(runs: Seq<Seq<Comp>>) -> bool {
    forall|i: int, j: int| #![trigger runs[i], runs[j]] 0 <= i < j < runs.len() ==> runs[j].len() <= runs[i].len()
}

/// The left-behind report: real files below `s` that are neither hidden
/// nor indexed.
pub open spec fn left_behind_of(index: Index, walked: Seq<Seq<char>>) -> Seq<Seq<char>> {
    walked.filter(|w: Seq<char>| !is_hidden(w) && !has_path(index.files@, w))
}

/// What [`plan_dir`] answers for moving directory `s` to `t`, `walked`
/// being the real files found below `s`.
pub open spec fn dir_plan_ok(index: Index, s: Seq<char>, t: Seq<char>, walked: Seq<Seq<char>>, r: JmoveResult<MovePlan>) -> bool {
    if under(s, t) || under(t, s) {
        r matches Err(JmoveError::PlanRejected(m)) && m@ == "Directory move: '"@ + rel_text(s) + "' and '"@ + rel_text(t)
            + "' are nested; a directory cannot move into or out of itself"@
    } else if members(index, s) == Set::<Seq<char>>::empty() {
        r matches Err(JmoveError::InvalidArgument(m)) && m@ == "source '"@ + rel_text(s) + "' has no indexed source files"@
    } else {
        &&& (forall|f: Seq<char>| members(index, s).contains(f) ==> !blocked(index, s, t, f)) <==> r is Ok
        &&& r matches Err(e) ==> exists|f: Seq<char>| first_blocked(index, s, t, f) && blocked_error(index, s, t, f, e)
        &&& r matches Ok(plan) ==> {
            &&& plan.source@ == s
            &&& plan.target@ == t
            &&& plan.moves@.map_values(|m: FileMove| m.source@).to_set() == members(index, s)
            &&& plan.moves@.map_values(|m: FileMove| m.source@).no_duplicates()
            &&& forall|i: int, j: int| 0 <= i < j < plan.moves@.len() ==>
                !crate::order::path_lt(plan.moves@[j].source@, plan.moves@[i].source@)
            &&& forall|i: int| 0 <= i < plan.moves@.len() ==>
                (#[trigger] plan.moves@[i]).target@ == mirror(plan.moves@[i].source@, s, t)
            &&& rewrite_views(plan.rewrites@).to_set() == moves_expected(index, plan.moves@).to_set()
            &&& rewrite_views(plan.rewrites@).no_duplicates()
            &&& exists|u: Seq<Rewrite>| #![trigger crate::order::insertion_sorted(u)]
                rewrite_views(u).to_multiset() == moves_expected(index, plan.moves@).to_multiset()
                && rewrite_views(plan.rewrites@) == first_views(rewrite_views(crate::order::insertion_sorted(u)))
            &&& sorted_by(plan.rewrites@)
            &&& texts(plan.left_behind@).to_multiset() == left_behind_of(index, walked).to_multiset()
            &&& sorted_by(plan.left_behind@)
            &&& exists|runs: Seq<Seq<Comp>>| {
                &&& forall|d: Seq<Comp>| runs.contains(d) <==> chain_upto(plan.moves@.map_values(|m: FileMove| m.source@), s,
                    plan.moves@.len() as int, d)
                &&& runs.no_duplicates()
                &&& deepest_first(runs)
                &&& runs.len() == plan.prune_dirs@.len()
                &&& forall|i: int| 0 <= i < runs.len() ==> (#[trigger] plan.prune_dirs@[i])@ == path_of(runs[i])
            }
        }
    }
}

/// The facts the planner establishes before building the moves: the
/// paths are not nested and `mv` lists the members, each once, in path
/// order.
pub open spec fn members_listed(index: Index, s: Seq<char>, t: Seq<char>, mv: Seq<Seq<char>>) -> bool {
    &&& !under(s, t)
    &&& !under(t, s)
    &&& mv.len() > 0
    &&& mv.to_set() == members(index, s)
    &&& mv.no_duplicates()
    &&& forall|a: int, b: int| 0 <= a < b < mv.len() ==> !crate::order::path_lt(mv[b], mv[a])
    &&& forall|j: int| 0 <= j < mv.len() ==> under(#[trigger] mv[j], s)
}

/// Plan the mirrored move of every indexed file below directory `source`
/// to the same relative place below `target`.
pub fn plan_dir(index: &Index, source: &str, target: &str, walked: Vec<String>) -> (r: JmoveResult<MovePlan>)
    ensures
        dir_plan_ok(*index, source@, target@, texts(walked@), r),
{
    proof {
        reveal_strlit("Directory move: '");
        reveal_strlit("' and '");
        reveal_strlit("' are nested; a directory cannot move into or out of itself");
        reveal_strlit("source '");
        reveal_strlit("' has no indexed source files");
        reveal_strlit("Directory move: target '");
        reveal_strlit("' already exists");
    }
    let sc = components(source);
    let tc = components(target);
    if components_prefix(tc.as_slice(), sc.as_slice()) || components_prefix(sc.as_slice(), tc.as_slice()) {
        let mut m = String::from_str("Directory move: '");
        push_str(&mut m, rel_str(source).as_str());
        push_str(&mut m, "' and '");
        push_str(&mut m, rel_str(target).as_str());
        push_str(&mut m, "' are nested; a directory cannot move into or out of itself");
        return Err(JmoveError::PlanRejected(m));
    }
    // The members, in path order.
    let sorted = index.files.sorted();
    let ghost sv = texts(sorted@);
    assert(sv == crate::engine::index::files::string_views(sorted@));
    let mut members_v: Vec<String> = Vec::new();
    let mut i: usize = 0;
    while i < sorted.len()
        invariant
            i <= sorted@.len(),
            sv == texts(sorted@),
            sv.to_set() == index.files@,
            sv.no_duplicates(),
            sorted_by(sorted@),
            comp_views(sc@) == comps(source@),
            texts(members_v@) == sv.take(i as int).filter(|f: Seq<char>| under(f, source@)),
        decreases sorted.len() - i,
    {
        let fc = components(sorted[i].as_str());
        let ghost before = texts(members_v@);
        proof {
            lemma_filter_push(sv.take(i as int), sv[i as int], |f: Seq<char>| under(f, source@));
            assert(sv.take(i + 1) =~= sv.take(i as int).push(sv[i as int]));
        }
        if components_prefix(sc.as_slice(), fc.as_slice()) {
            members_v.push(sorted[i].clone());
            assert(texts(members_v@) =~= before.push(sv[i as int]));
        }
        i += 1;
    }
    assert(sv.take(sv.len() as int) =~= sv);
    let ghost mv = texts(members_v@);
    proof {
        lemma_filter_facts(sv, |f: Seq<char>| under(f, source@));
        assert(mv.to_set() =~= members(*index, source@)) by {
            assert forall|f: Seq<char>| mv.to_set().contains(f) <==> members(*index, source@).contains(f) by {
                assert(sv.to_set().filter(|f: Seq<char>| under(f, source@)).contains(f) <==> (sv.to_set().contains(f) && under(f, source@)));
            }
        }
        assert forall|a: int, b: int| 0 <= a < b < sv.len() implies !crate::order::path_lt(sv[b], sv[a]) by {
            assert(sorted@[a].le_spec(&sorted@[b]));
        }
        lemma_filter_sorted(sv, |f: Seq<char>| under(f, source@));
        assert forall|j: int| 0 <= j < mv.len() implies under(#[trigger] mv[j], source@) by {
            assert(mv.to_set().contains(mv[j]));
        }
    }
    if members_v.len() == 0 {
        proof {
            assert(mv =~= Seq::<Seq<char>>::empty());
            assert(members(*index, source@) =~= Set::<Seq<char>>::empty());
        }
        return Err(JmoveError::InvalidArgument(concat3("source '", rel_str(source).as_str(), "' has no indexed source files")));
    }
    assert(members_listed(*index, source@, target@, mv));
    // The mirrored moves.
    let mut moves: Vec<FileMove> = Vec::new();
    let mut k: usize = 0;
    while k < members_v.len()
        invariant
            members_listed(*index, source@, target@, mv),
            k <= members_v@.len(),
            mv == texts(members_v@),
            comp_views(sc@) == comps(source@),
            forall|j: int| 0 <= j < mv.len() ==> under(#[trigger] mv[j], source@),
            moves@.len() == k,
            forall|j: int| 0 <= j < k ==> (#[trigger] moves@[j]).source@ == mv[j]
                && moves@[j].target@ == mirror(mv[j], source@, target@),
        decreases members_v.len() - k,
    {
        let f = &members_v[k];
        assert(f@ == mv[k as int]);
        let fc = components(f.as_str());
        assert(under(f@, source@));
        assert(comp_views(sc@).len() == sc@.len());
        assert(comp_views(fc@).len() == fc@.len());
        let rest = components_slice(fc.as_slice(), sc.len(), fc.len());
        let mut dst = chars_of(target);
        crate::path::push_path(&mut dst, path_text(rest.as_slice()).as_slice());
        moves.push(FileMove { source: f.clone(), target: string_of(dst.as_slice()) });
        k += 1;
    }
    proof {
        assert(mv.to_set().contains(mv[0]));
        assert(members(*index, source@).contains(mv[0]));
        assert(members(*index, source@) != Set::<Seq<char>>::empty());
    }
    // Refuse a move onto an indexed file.
    let mut k: usize = 0;
    while k < moves.len()
        invariant
            members_listed(*index, source@, target@, mv),
            members(*index, source@) != Set::<Seq<char>>::empty(),
            k <= moves@.len(),
            moves@.len() == mv.len(),
            forall|j: int| 0 <= j < moves@.len() ==> (#[trigger] moves@[j]).source@ == mv[j]
                && moves@[j].target@ == mirror(mv[j], source@, target@),
            forall|j: int| 0 <= j < k ==> !has_path(index.files@, #[trigger] mirror(mv[j], source@, target@)),
        decreases moves.len() - k,
    {
        if index.files.contains(moves[k].target.as_str()) {
            let shown = rel_str(moves[k].target.as_str());
            let mut m = String::from_str("Directory move: target '");
            push_str(&mut m, shown.as_str());
            push_str(&mut m, "' already exists");
            proof {
                assert(mv.to_set().contains(mv[k as int]));
                assert(blocked(*index, source@, target@, mv[k as int]));
                assert(blocked_error(*index, source@, target@, mv[k as int], JmoveError::PlanRejected(m)));
                assert(collides(*index, source@, target@, mv[k as int]));
                assert forall|g: Seq<char>| #[trigger] collides(*index, source@, target@, g) implies !crate::order::path_lt(g, mv[k as int]) by {
                    assert(mv.to_set().contains(g));
                    let j = choose|j: int| 0 <= j < mv.len() && mv[j] == g;
                    if j < k {
                        assert(!has_path(index.files@, mirror(mv[j], source@, target@)));
                    } else if j > k {
                        assert(!crate::order::path_lt(mv[j], mv[k as int]));
                    } else {
                        crate::order::lemma_path_order(g, g, g);
                    }
                }
                assert(first_blocked(*index, source@, target@, mv[k as int]));
            }
            return Err(JmoveError::PlanRejected(m));
        }
        k += 1;
    }
    // Merge every member's rewrites.
    let mut all: Vec<Rewrite> = Vec::new();
    let mut k: usize = 0;
    assert(moves@.take(0) =~= Seq::<FileMove>::empty());
    assert(rewrite_views(all@) =~= Seq::<RewriteView>::empty());
    while k < moves.len()
        invariant
            members_listed(*index, source@, target@, mv),
            members(*index, source@) != Set::<Seq<char>>::empty(),
            k <= moves@.len(),
            moves@.len() == mv.len(),
            forall|j: int| 0 <= j < moves@.len() ==> (#[trigger] moves@[j]).source@ == mv[j]
                && moves@[j].target@ == mirror(mv[j], source@, target@),
            forall|j: int| 0 <= j < moves@.len() ==> !has_path(index.files@, #[trigger] mirror(mv[j], source@, target@)),
            forall|j: int| 0 <= j < k ==> file_refusal(*index, mv[j], #[trigger] mirror(mv[j], source@, target@)) is None,
            rewrite_views(all@).to_multiset() == moves_expected(*index, moves@.take(k as int)).to_multiset(),
        decreases moves.len() - k,
    {
        let m = &moves[k];
        match file_rewrites(index, m.source.as_str(), m.target.as_str()) {
            Ok(rw) => {
                let ghost before = all@;
                let mut j: usize = 0;
                while j < rw.len()
                    invariant
                        j <= rw@.len(),
                        rewrite_views(all@) == rewrite_views(before) + rewrite_views(rw@).take(j as int),
                    decreases rw.len() - j,
                {
                    let ghost prev = all@;
                    all.push(rw[j].clone());
                    assert(rewrite_views(all@) =~= rewrite_views(prev).push(rw@[j as int].view_of()));
                    j += 1;
                    assert(rewrite_views(before) + rewrite_views(rw@).take(j as int)
                        =~= rewrite_views(prev).push(rw@[j - 1].view_of()));
                }
                proof {
                    assert(rewrite_views(rw@).take(rw@.len() as int) =~= rewrite_views(rw@));
                    assert(moves@.take(k + 1).drop_last() =~= moves@.take(k as int));
                    assert(moves@.take(k + 1).last() == moves@[k as int]);
                    vstd::seq_lib::lemma_multiset_commutative(rewrite_views(before), rewrite_views(rw@));
                    vstd::seq_lib::lemma_multiset_commutative(
                        moves_expected(*index, moves@.take(k as int)),
                        crate::engine::plan::file_expected(*index, m.source@, m.target@),
                    );
                }
            },
            Err(e) => {
                proof {
                    assert(mv.to_set().contains(mv[k as int]));
                    assert(blocked(*index, source@, target@, mv[k as int]));
                    assert(blocked_error(*index, source@, target@, mv[k as int], e));
                    assert(!exists|g: Seq<char>| #[trigger] collides(*index, source@, target@, g)) by {
                        if exists|g: Seq<char>| #[trigger] collides(*index, source@, target@, g) {
                            let g = choose|g: Seq<char>| #[trigger] collides(*index, source@, target@, g);
                            assert(mv.to_set().contains(g));
                            let j = choose|j: int| 0 <= j < mv.len() && mv[j] == g;
                            assert(!has_path(index.files@, mirror(mv[j], source@, target@)));
                        }
                    }
                    assert forall|g: Seq<char>| #[trigger] members(*index, source@).contains(g) && blocked(*index, source@, target@, g)
                        implies !crate::order::path_lt(g, mv[k as int]) by {
                        assert(mv.to_set().contains(g));
                        let j = choose|j: int| 0 <= j < mv.len() && mv[j] == g;
                        if j < k {
                            assert(!has_path(index.files@, mirror(mv[j], source@, target@)));
                            assert(file_refusal(*index, mv[j], mirror(mv[j], source@, target@)) is None);
                        } else if j > k {
                            assert(!crate::order::path_lt(mv[j], mv[k as int]));
                        } else {
                            crate::order::lemma_path_order(g, g, g);
                        }
                    }
                    assert(first_blocked(*index, source@, target@, mv[k as int]));
                }
                return Err(e);
            },
        }
        k += 1;
    }
    assert(moves@.take(moves@.len() as int) =~= moves@);
    let ghost unsorted = all@;
    let sorted_rw = sort_stable(all);
    proof {
        crate::order::lemma_map_multiset(sorted_rw@, unsorted, |x: Rewrite| x.view_of());
    }
    let rewrites = dedup_rewrites(sorted_rw);
    assert(sorted_rw@ == crate::order::insertion_sorted(unsorted));
    let prune = prune_chain(source, &members_v);
    let left = unsupported_left_behind(index, &walked);
    proof {
        assert forall|f: Seq<char>| members(*index, source@).contains(f) implies !blocked(*index, source@, target@, f) by {
            assert(mv.to_set().contains(f));
            let j = choose|j: int| 0 <= j < mv.len() && mv[j] == f;
            assert(moves@[j].source@ == mv[j]);
        }
        assert(moves@.map_values(|m: FileMove| m.source@) =~= mv);
        lemma_multiset_set(rewrite_views(sorted_rw@), moves_expected(*index, moves@));
    }
    Ok(MovePlan {
        source: String::from_str(source),
        target: String::from_str(target),
        moves,
        rewrites,
        left_behind: left,
        prune_dirs: prune,
    })
}

/// Equal multisets have equal element sets.
proof fn lemma_multiset_set<T>(a: Seq<T>, b: Seq<T>)
    requires
        a.to_multiset() == b.to_multiset(),
    ensures
        a.to_set() == b.to_set(),
{
    broadcast use vstd::seq_lib::group_to_multiset_ensures;
    assert forall|x: T| a.to_set().contains(x) <==> b.to_set().contains(x) by {
        vstd::seq_lib::to_multiset_contains(a, x);
        vstd::seq_lib::to_multiset_contains(b, x);
    }
    assert(a.to_set() =~= b.to_set());
}

/// Filtering keeps path order.
proof fn lemma_filter_sorted(s: Seq<Seq<char>>, p: spec_fn(Seq<char>) -> bool)
    requires
        forall|a: int, b: int| 0 <= a < b < s.len() ==> !crate::order::path_lt(s[b], s[a]),
    ensures
        forall|a: int, b: int| 0 <= a < b < s.filter(p).len() ==> !crate::order::path_lt(s.filter(p)[b], s.filter(p)[a]),
    decreases s.len(),
{
    reveal(Seq::filter);
    if s.len() > 0 {
        let d = s.drop_last();
        lemma_filter_sorted(d, p);
        let f = d.filter(p);
        if p(s.last()) {
            assert forall|a: int, b: int| 0 <= a < b < f.push(s.last()).len()
                implies !crate::order::path_lt(f.push(s.last())[b], f.push(s.last())[a]) by {
                if b == f.len() {
                    assert(f.contains(f[a]));
                    d.lemma_filter_contains_rev(p, f[a]);
                    let k = choose|k: int| 0 <= k < d.len() && d[k] == f[a];
                    assert(s[k] == f[a]);
                }
            }
        }
    }
}

/// Filtering a sequence with one more element.
proof fn lemma_filter_push(s: Seq<Seq<char>>, x: Seq<char>, p: spec_fn(Seq<char>) -> bool)
    ensures
        s.push(x).filter(p) == if p(x) { s.filter(p).push(x) } else { s.filter(p) },
{
    assert(s.push(x).drop_last() =~= s);
    reveal(Seq::filter);
}

/// What a filter keeps: exactly the elements satisfying the predicate,
/// each as often as before.
proof fn lemma_filter_facts(s: Seq<Seq<char>>, p: spec_fn(Seq<char>) -> bool)
    requires
        s.no_duplicates(),
    ensures
        s.filter(p).to_set() == s.to_set().filter(p),
        s.filter(p).no_duplicates(),
{
    broadcast use vstd::seq_lib::group_filter_ensures;
    assert(s.filter(p).to_set() =~= s.to_set().filter(p)) by {
        assert forall|x: Seq<char>| s.filter(p).to_set().contains(x) <==> s.to_set().filter(p).contains(x) by {
            if s.to_set().filter(p).contains(x) {
                assert(s.contains(x));
                let k = choose|k: int| 0 <= k < s.len() && s[k] == x;
                assert(s.filter(p).contains(s[k]));
            }
            if s.filter(p).to_set().contains(x) {
                assert(s.filter(p).contains(x));
                s.lemma_filter_contains_rev(p, x);
                let k = choose|k: int| 0 <= k < s.filter(p).len() && s.filter(p)[k] == x;
                assert(p(s.filter(p)[k]));
            }
        }
    }
    lemma_filter_no_dup(s, p);
}

/// Filtering keeps a duplicate-free sequence duplicate-free.
proof fn lemma_filter_no_dup(s: Seq<Seq<char>>, p: spec_fn(Seq<char>) -> bool)
    requires
        s.no_duplicates(),
    ensures
        s.filter(p).no_duplicates(),
    decreases s.len(),
{
    reveal(Seq::filter);
    if s.len() > 0 {
        let d = s.drop_last();
        assert(d.no_duplicates()) by {
            assert forall|i: int, j: int| 0 <= i < d.len() && 0 <= j < d.len() && i != j implies d[i] != d[j] by {
                assert(s[i] != s[j]);
            }
        }
        lemma_filter_no_dup(d, p);
        if p(s.last()) {
            if d.filter(p).contains(s.last()) {
                d.lemma_filter_contains_rev(p, s.last());
                let k = choose|k: int| 0 <= k < d.len() && d[k] == s.last();
                assert(s[k] == s[s.len() - 1]);
            }
            let f = d.filter(p);
            assert forall|i: int, j: int| 0 <= i < f.push(s.last()).len() && 0 <= j < f.push(s.last()).len() && i != j
                implies f.push(s.last())[i] != f.push(s.last())[j] by {
                if i == f.len() {
                    assert(f.contains(f[j]));
                } else if j == f.len() {
                    assert(f.contains(f[i]));
                }
            }
        }
    }
}

/// `s` with every element that repeats an earlier one dropped: the first
/// occurrences, in order.
pub open spec fn first_views(s: Seq<RewriteView>) -> Seq<RewriteView>
    decreases s.len(),
{
    if s.len() == 0 {
        Seq::empty()
    } else if first_views(s.drop_last()).contains(s.last()) {
        first_views(s.drop_last())
    } else {
        first_views(s.drop_last()).push(s.last())
    }
}

// Drop each rewrite equal to one kept before it.
fn dedup_rewrites(v: Vec<Rewrite>) -> (r: Vec<Rewrite>)
    requires
        sorted_by(v@),
    ensures
        rewrite_views(r@) == first_views(rewrite_views(v@)),
        rewrite_views(r@).no_duplicates(),
        rewrite_views(r@).to_set() == rewrite_views(v@).to_set(),
        sorted_by(r@),
{
    let mut out: Vec<Rewrite> = Vec::new();
    let ghost mut idx: Seq<int> = Seq::empty();
    let mut i: usize = 0;
    assert(rewrite_views(v@).take(0) =~= Seq::<RewriteView>::empty());
    assert(rewrite_views(out@) =~= Seq::<RewriteView>::empty());
    assert(rewrite_views(v@).take(0).to_set() =~= rewrite_views(out@).to_set());
    while i < v.len()
        invariant
            i <= v@.len(),
            sorted_by(v@),
            idx.len() == out@.len(),
            forall|a: int| 0 <= a < idx.len() ==> 0 <= #[trigger] idx[a] < i && out@[a].view_of() == v@[idx[a]].view_of(),
            forall|a: int, b: int| 0 <= a < b < idx.len() ==> idx[a] < idx[b],
            rewrite_views(out@) == first_views(rewrite_views(v@).take(i as int)),
            rewrite_views(out@).no_duplicates(),
            rewrite_views(out@).to_set() == rewrite_views(v@).take(i as int).to_set(),
        decreases v.len() - i,
    {
        let ghost prev = out@;
        let ghost x = v@[i as int].view_of();
        let mut seen = false;
        let mut k: usize = 0;
        while k < out.len()
            invariant
                out@ == prev,
                k <= out@.len(),
                seen <==> exists|a: int| 0 <= a < k && rewrite_views(out@)[a] == x,
                x == v@[i as int].view_of(),
                i < v@.len(),
            decreases out.len() - k,
        {
            if same_rewrite(&out[k], &v[i]) {
                seen = true;
            }
            assert(rewrite_views(out@)[k as int] == out@[k as int].view_of());
            k += 1;
        }
        let ghost t0 = rewrite_views(v@).take(i as int);
        let ghost t1 = rewrite_views(v@).take(i + 1);
        proof {
            assert(t1 =~= t0.push(x));
            assert(t1.drop_last() =~= t0);
            assert(t1.last() == x);
            if seen {
                let a = choose|a: int| 0 <= a < prev.len() && rewrite_views(prev)[a] == x;
                assert(first_views(t0).contains(x));
            } else {
                assert(!first_views(t0).contains(x)) by {
                    if first_views(t0).contains(x) {
                        let a = choose|a: int| 0 <= a < first_views(t0).len() && first_views(t0)[a] == x;
                        assert(rewrite_views(prev)[a] == x);
                    }
                }
            }
        }
        if !seen {
            out.push(v[i].clone());
            proof {
                idx = idx.push(i as int);
                assert(rewrite_views(out@) =~= rewrite_views(prev).push(x));
            }
        }
        proof {
            assert(rewrite_views(out@) == first_views(t1));
            assert forall|y: RewriteView| t1.to_set().contains(y) <==> rewrite_views(out@).to_set().contains(y) by {
                if t1.to_set().contains(y) {
                    let j = choose|j: int| 0 <= j < t1.len() && t1[j] == y;
                    if j < i {
                        assert(t0[j] == y);
                        assert(t0.to_set().contains(y));
                        assert(rewrite_views(prev).to_set().contains(y));
                        let m = choose|m: int| 0 <= m < rewrite_views(prev).len() && rewrite_views(prev)[m] == y;
                        if !seen {
                            assert(rewrite_views(out@)[m] == y);
                        }
                    } else {
                        assert(y == x);
                        if !seen {
                            assert(rewrite_views(out@)[prev.len() as int] == y);
                        } else {
                            let a = choose|a: int| 0 <= a < prev.len() && rewrite_views(prev)[a] == x;
                            assert(rewrite_views(out@)[a] == y);
                        }
                    }
                }
                if rewrite_views(out@).to_set().contains(y) {
                    let m = choose|m: int| 0 <= m < rewrite_views(out@).len() && rewrite_views(out@)[m] == y;
                    if m < prev.len() {
                        assert(rewrite_views(prev)[m] == y);
                        assert(rewrite_views(prev).to_set().contains(y));
                        assert(t0.to_set().contains(y));
                        let j = choose|j: int| 0 <= j < t0.len() && t0[j] == y;
                        assert(t1[j] == y);
                    } else {
                        assert(y == x);
                        assert(t1[i as int] == y);
                    }
                }
            }
            assert(rewrite_views(out@).to_set() =~= t1.to_set());
            if !seen {
                assert forall|a: int, b: int| 0 <= a < rewrite_views(out@).len() && 0 <= b < rewrite_views(out@).len() && a != b
                    implies rewrite_views(out@)[a] != rewrite_views(out@)[b] by {
                    if a < prev.len() && b < prev.len() {
                        assert(rewrite_views(prev)[a] == rewrite_views(out@)[a]);
                        assert(rewrite_views(prev)[b] == rewrite_views(out@)[b]);
                    } else if a < prev.len() {
                        assert(rewrite_views(prev)[a] == rewrite_views(out@)[a]);
                    } else {
                        assert(rewrite_views(prev)[b] == rewrite_views(out@)[b]);
                    }
                }
            }
        }
        i += 1;
    }
    assert(rewrite_views(v@).take(v@.len() as int) =~= rewrite_views(v@));
    proof {
        assert forall|a: int, b: int| #![trigger out@[a], out@[b]] 0 <= a < b < out@.len() implies out@[a].le_spec(&out@[b]) by {
            assert(v@[idx[a]].le_spec(&v@[idx[b]]));
        }
    }
    out
}

// Whether two rewrites are equal in every field.
fn same_rewrite(a: &Rewrite, b: &Rewrite) -> (r: bool)
    ensures
        r == (a.view_of() == b.view_of()),
{
    crate::text::str_eq(a.file.as_str(), b.file.as_str()) && a.span.start == b.span.start && a.span.end == b.span.end
        && crate::text::str_eq(a.old_text.as_str(), b.old_text.as_str())
        && crate::text::str_eq(a.new_text.as_str(), b.new_text.as_str())
}

/// A directory ordered by component count, deepest first.
struct Deep {
    text: String,
    cs: Vec<Component>,
}

impl Deep {
    spec fn run(&self) -> Seq<Comp> {
        comp_views(self.cs@)
    }
}

/// The component runs of a list of directories.
spec fn deep_runs(s: Seq<Deep>) -> Seq<Seq<Comp>> {
    s.map_values(|d: Deep| d.run())
}

impl TotalPreorder for Deep {
    closed spec fn le_spec(&self, other: &Self) -> bool {
        other.cs@.len() <= self.cs@.len()
    }

    proof fn lemma_total(a: &Self, b: &Self) {
    }

    proof fn lemma_transitive(a: &Self, b: &Self, c: &Self) {
    }

    fn le(&self, other: &Self) -> (r: bool) {
        other.cs.len() <= self.cs.len()
    }
}

/// `d` is an ancestor run the members before index `upto` contribute.
pub open spec fn chain_upto(mv: Seq<Seq<char>>, s: Seq<char>, upto: int, d: Seq<Comp>) -> bool {
    exists|j: int, k: int| #![trigger mv[j], comps(mv[j]).take(k)]
        0 <= j < upto && d == comps(mv[j]).take(k) && k < comps(mv[j]).len()
        && (if comps(mv[j]).len() > comps(s).len() { comps(s).len() <= k } else { 0 <= k })
}

// Every directory that loses files: the moved members' parent chains up to
// and including `source` itself, deepest first.
fn prune_chain(source: &str, members_v: &Vec<String>) -> (r: Vec<String>)
    ensures
        exists|runs: Seq<Seq<Comp>>| {
            &&& forall|d: Seq<Comp>| runs.contains(d) <==> chain_upto(texts(members_v@), source@, members_v@.len() as int, d)
            &&& runs.no_duplicates()
            &&& deepest_first(runs)
            &&& runs.len() == r@.len()
            &&& forall|i: int| 0 <= i < runs.len() ==> (#[trigger] r@[i])@ == path_of(runs[i])
        },
{
    let sc = components(source);
    let mut out: Vec<Deep> = Vec::new();
    let ghost mv = texts(members_v@);
    let mut i: usize = 0;
    while i < members_v.len()
        invariant
            i <= members_v@.len(),
            mv == texts(members_v@),
            comp_views(sc@) == comps(source@),
            forall|a: int| 0 <= a < out@.len() ==> (#[trigger] out@[a]).text@ == path_of(out@[a].run()),
            deep_runs(out@).no_duplicates(),
            forall|d: Seq<Comp>| deep_runs(out@).contains(d) <==> chain_upto(mv, source@, i as int, d),
        decreases members_v.len() - i,
    {
        let fc = components(members_v[i].as_str());
        let ghost fv = comp_views(fc@);
        assert(fv == comps(mv[i as int]));
        let lo = if fc.len() > sc.len() { sc.len() } else { 0 };
        let mut k = fc.len();
        while k > lo
            invariant
                lo <= k <= fc@.len(),
                fv == comp_views(fc@),
                fv == comps(mv[i as int]),
                i < mv.len(),
                lo == (if fv.len() > comps(source@).len() { comps(source@).len() } else { 0 }),
                forall|a: int| 0 <= a < out@.len() ==> (#[trigger] out@[a]).text@ == path_of(out@[a].run()),
                deep_runs(out@).no_duplicates(),
                forall|d: Seq<Comp>| deep_runs(out@).contains(d) <==>
                    chain_upto(mv, source@, i as int, d) || (exists|q: int| k <= q < fv.len() && d == #[trigger] fv.take(q)),
            decreases k,
        {
            let ghost before0 = deep_runs(out@);
            let ghost k_old = k as int;
            assert(forall|d: Seq<Comp>| before0.contains(d) <==>
                chain_upto(mv, source@, i as int, d) || (exists|q: int| k_old <= q < fv.len() && d == #[trigger] fv.take(q)));
            k -= 1;
            let run = components_slice(fc.as_slice(), 0, k);
            let ghost rv = comp_views(run@);
            assert(rv =~= fv.take(k as int));
            let mut seen = false;
            let mut a: usize = 0;
            while a < out.len()
                invariant
                    a <= out@.len(),
                    !seen ==> forall|b: int| 0 <= b < a ==> (#[trigger] out@[b]).run() != rv,
                    seen ==> exists|b: int| 0 <= b < out@.len() && (#[trigger] out@[b]).run() == rv,
                    rv == comp_views(run@),
                decreases out.len() - a,
            {
                if !seen && same_run(&out[a].cs, &run) {
                    seen = true;
                }
                a += 1;
            }
            let ghost before = deep_runs(out@);
            assert(before == before0);
            if !seen {
                let text = string_of(path_text(run.as_slice()).as_slice());
                out.push(Deep { text, cs: run });
                proof {
                    assert(deep_runs(out@) =~= before.push(rv));
                    assert(deep_runs(out@)[before.len() as int] == rv);
                    assert(!before.contains(rv)) by {
                        if before.contains(rv) {
                            let b = choose|b: int| 0 <= b < before.len() && before[b] == rv;
                            assert(out@[b].run() == rv);
                        }
                    }
                }
            } else {
                proof {
                    let b = choose|b: int| 0 <= b < out@.len() && (#[trigger] out@[b]).run() == rv;
                    assert(before[b] == rv);
                    assert(deep_runs(out@)[b] == rv);
                }
            }
            proof {
                assert(deep_runs(out@).contains(rv));
                assert forall|d: Seq<Comp>| d != rv implies (deep_runs(out@).contains(d) <==> before0.contains(d)) by {
                    if !seen {
                        if deep_runs(out@).contains(d) {
                            let m = choose|m: int| 0 <= m < deep_runs(out@).len() && deep_runs(out@)[m] == d;
                            assert(m < before0.len());
                            assert(before0[m] == d);
                        }
                        if before0.contains(d) {
                            let m = choose|m: int| 0 <= m < before0.len() && before0[m] == d;
                            assert(deep_runs(out@)[m] == d);
                        }
                    }
                }
                assert forall|d: Seq<Comp>| #[trigger] deep_runs(out@).contains(d) <==>
                    chain_upto(mv, source@, i as int, d) || (exists|q: int| k <= q < fv.len() && d == #[trigger] fv.take(q)) by {
                    if d == rv {
                        assert(fv.take(k as int) == d);
                        assert(k < fv.len());
                    } else {
                        assert(deep_runs(out@).contains(d) <==> before0.contains(d));
                        assert(before0.contains(d) <==>
                            chain_upto(mv, source@, i as int, d) || (exists|q: int| k_old <= q < fv.len() && d == #[trigger] fv.take(q)));
                        if exists|q: int| k <= q < fv.len() && d == #[trigger] fv.take(q) {
                            let q = choose|q: int| k <= q < fv.len() && d == #[trigger] fv.take(q);
                            assert(q != k);
                            assert(k_old <= q < fv.len() && d == fv.take(q));
                        }
                        if exists|q: int| k_old <= q < fv.len() && d == #[trigger] fv.take(q) {
                            let q = choose|q: int| k_old <= q < fv.len() && d == #[trigger] fv.take(q);
                            assert(k <= q < fv.len() && d == fv.take(q));
                        }
                    }
                }
            }
        }
        proof {
            assert forall|d: Seq<Comp>| #[trigger] deep_runs(out@).contains(d) <==> chain_upto(mv, source@, i + 1, d) by {
                if exists|q: int| lo <= q < fv.len() && d == #[trigger] fv.take(q) {
                    let q = choose|q: int| lo <= q < fv.len() && d == #[trigger] fv.take(q);
                    assert(mv[i as int] == mv[i as int]);
                    assert(comps(mv[i as int]).take(q) == d);
                }
                if chain_upto(mv, source@, i + 1, d) {
                    let (j, q) = choose|j: int, q: int| #![trigger mv[j], comps(mv[j]).take(q)]
                        0 <= j < i + 1 && d == comps(mv[j]).take(q) && q < comps(mv[j]).len()
                        && (if comps(mv[j]).len() > comps(source@).len() { comps(source@).len() <= q } else { 0 <= q });
                    if j < i {
                        assert(chain_upto(mv, source@, i as int, d));
                    } else {
                        assert(d == fv.take(q));
                    }
                }
            }
        }
        i += 1;
    }
    let ghost unsorted = out@;
    let sorted = sort_stable(out);
    let ghost runs = deep_runs(sorted@);
    proof {
        crate::order::lemma_map_multiset(sorted@, unsorted, |d: Deep| d.run());
        crate::parser::java::lemma_multiset_same_set(runs, deep_runs(unsorted));
        assert forall|d: Seq<Comp>| runs.contains(d) <==> deep_runs(unsorted).contains(d) by {
            assert(runs.to_set().contains(d) == runs.contains(d));
        }
        assert forall|a: int| 0 <= a < sorted@.len() implies (#[trigger] sorted@[a]).text@ == path_of(sorted@[a].run()) by {
            broadcast use vstd::seq_lib::group_to_multiset_ensures;
            vstd::seq_lib::to_multiset_contains(sorted@, sorted@[a]);
            assert(sorted@.contains(sorted@[a]));
            assert(unsorted.to_multiset().contains(sorted@[a]));
            vstd::seq_lib::to_multiset_contains(unsorted, sorted@[a]);
            let b = choose|b: int| 0 <= b < unsorted.len() && unsorted[b] == sorted@[a];
        }
        assert forall|a: int, b: int| #![trigger runs[a], runs[b]] 0 <= a < b < runs.len() implies runs[b].len() <= runs[a].len() by {
            assert(sorted@[a].le_spec(&sorted@[b]));
        }
    }
    let mut r: Vec<String> = Vec::new();
    let mut j: usize = 0;
    while j < sorted.len()
        invariant
            j <= sorted@.len(),
            r@.len() == j,
            forall|a: int| 0 <= a < j ==> (#[trigger] r@[a])@ == sorted@[a].text@,
        decreases sorted.len() - j,
    {
        r.push(sorted[j].text.clone());
        j += 1;
    }
    proof {
        assert forall|i: int| 0 <= i < runs.len() implies (#[trigger] r@[i])@ == path_of(runs[i]) by {
            assert(r@[i]@ == sorted@[i].text@);
        }
    }
    r
}

// Whether two component runs are equal.
fn same_run(a: &Vec<Component>, b: &Vec<Component>) -> (r: bool)
    ensures
        r == (comp_views(a@) == comp_views(b@)),
{
    if a.len() != b.len() {
        return false;
    }
    let ok = components_prefix(a.as_slice(), b.as_slice());
    assert(comp_views(b@).subrange(0, comp_views(a@).len() as int) =~= comp_views(b@));
    ok
}

// Real files below the moved directory that the index does not know (and
// therefore this plan will not move); hidden paths are nobody's source
// files and skipped. `walked` is what a walk of the directory found.
fn unsupported_left_behind(index: &Index, walked: &Vec<String>) -> (r: Vec<String>)
    ensures
        texts(r@).to_multiset() == left_behind_of(*index, texts(walked@)).to_multiset(),
        sorted_by(r@),
{
    let mut out: Vec<String> = Vec::new();
    let mut i: usize = 0;
    while i < walked.len()
        invariant
            i <= walked@.len(),
            texts(out@) == texts(walked@).take(i as int).filter(|w: Seq<char>| !is_hidden(w) && !has_path(index.files@, w)),
        decreases walked.len() - i,
    {
        let w = &walked[i];
        let ghost before = texts(out@);
        proof {
            lemma_filter_push(texts(walked@).take(i as int), texts(walked@)[i as int],
                |w: Seq<char>| !is_hidden(w) && !has_path(index.files@, w));
            assert(texts(walked@).take(i + 1) =~= texts(walked@).take(i as int).push(texts(walked@)[i as int]));
        }
        if !hidden(w.as_str()) && !index.files.contains(w.as_str()) {
            out.push(w.clone());
            assert(texts(out@) =~= before.push(w@));
        }
        i += 1;
    }
    assert(texts(walked@).take(walked@.len() as int) =~= texts(walked@));
    let ghost unsorted = out@;
    let r = sort_stable(out);
    proof {
        crate::order::lemma_map_multiset(r@, unsorted, |s: String| s@);
    }
    r
}

// Whether some component of `p` starts with a dot.
fn hidden(p: &str) -> (r: bool)
    ensures
        r == is_hidden(p@),
{
    let cs = components(p);
    let mut i: usize = 0;
    while i < cs.len()
        invariant
            i <= cs@.len(),
            comp_views(cs@) == comps(p@),
            forall|j: int| 0 <= j < i ==> !(comp_text(#[trigger] comps(p@)[j]).len() > 0 && comp_text(comps(p@)[j])[0] == '.'),
        decreases cs.len() - i,
    {
        let t = crate::path::component_text(&cs[i]);
        assert(t@ == comp_text(comps(p@)[i as int]));
        if t.len() > 0 && t[0] == '.' {
            return true;
        }
        i += 1;
    }
    false
}

} // verus!

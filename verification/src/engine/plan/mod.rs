//! Move planning: decide which import specifiers must be rewritten.
//!
//! A plan is pure data (no disk writes), so dry-run and JSON output can
//! render it without touching the file system. Specifier arithmetic lives
//! in [`specifier`]; the Java package/directory flavour in [`java`], and
//! the mirrored batch move of a whole directory in [`dir`].

pub mod dir;
pub mod java;
pub mod specifier;

pub use specifier::relative_specifier;

use vstd::prelude::*;

use crate::engine::index::tsconfig::{remap_alias, AliasView};
use crate::engine::index::{targets_file, Index, ResolvedImport};
use crate::engine::{concat3, normalize_rel_path, rel_str, Edit, JmoveError, JmoveResult};
use crate::order::{path_lt, sort_stable, sorted_by, TotalPreorder};
use crate::parser::{language_of_path, SourceLanguage};
use crate::path::{comps, normalized, rel_text};
use crate::text::str_eq;
use specifier::relative_spec;

verus! {

/// One in-file replacement of an import specifier. Only the specifier
/// text is touched — the statement layout is never reformatted.
pub struct Rewrite {
    /// Project-relative file to modify.
    pub file: String,
    /// Byte range of the old specifier text (without quotes).
    pub span: std::ops::Range<usize>,
    /// Specifier as currently written.
    pub old_text: String,
    /// Specifier after the move.
    pub new_text: String,
}

/// A rewrite as the contracts see it: file, span start and end, old and
/// new text.
pub type RewriteView = (Seq<char>, int, int, Seq<char>, Seq<char>);

impl Rewrite {
    pub open spec fn view_of(&self) -> RewriteView {
        (self.file@, self.span.start as int, self.span.end as int, self.old_text@, self.new_text@)
    }

    /// The generic byte edit this rewrite performs.
    pub fn to_edit(&self) -> (r: Edit)
        ensures
            r.span == self.span,
            r.old_text@ == self.old_text@,
            r.new_text@ == self.new_text@,
    {
        Edit { span: self.span.start..self.span.end, old_text: self.old_text.clone(), new_text: self.new_text.clone() }
    }
}

impl Clone for Rewrite {
    fn clone(&self) -> (r: Self)
        ensures
            r.view_of() == self.view_of(),
    {
        Rewrite {
            file: self.file.clone(),
            span: self.span.start..self.span.end,
            old_text: self.old_text.clone(),
            new_text: self.new_text.clone(),
        }
    }
}

/// Rewrites ordered by file (path order), then by span start.
pub open spec fn rewrite_lt(a: RewriteView, b: RewriteView) -> bool {
    path_lt(a.0, b.0) || (comps(a.0) == comps(b.0) && a.1 < b.1)
}

impl TotalPreorder for Rewrite {
    open spec fn le_spec(&self, other: &Self) -> bool {
        !rewrite_lt(other.view_of(), self.view_of())
    }

    proof fn lemma_total(a: &Self, b: &Self) {
        crate::order::lemma_path_order(a.file@, b.file@, a.file@);
    }

    proof fn lemma_transitive(a: &Self, b: &Self, c: &Self) {
        crate::order::lemma_path_order(a.file@, b.file@, c.file@);
        crate::order::lemma_path_order(c.file@, b.file@, a.file@);
        crate::order::lemma_path_order(c.file@, a.file@, b.file@);
        crate::order::lemma_path_order(b.file@, a.file@, c.file@);
        crate::order::lemma_path_order(a.file@, c.file@, b.file@);
        crate::order::lemma_path_order(b.file@, c.file@, a.file@);
    }

    fn le(&self, other: &Self) -> (r: bool) {
        if crate::order::path_before(other.file.as_str(), self.file.as_str()) {
            return false;
        }
        if crate::order::path_before(self.file.as_str(), other.file.as_str()) {
            proof {
                crate::order::lemma_path_order(self.file@, other.file@, self.file@);
            }
            return true;
        }
        proof {
            crate::order::lemma_path_order(self.file@, other.file@, self.file@);
        }
        !(other.span.start < self.span.start)
    }
}

/// The views of a rewrite sequence.
pub open spec fn rewrite_views(s: Seq<Rewrite>) -> Seq<RewriteView> {
    s.map_values(|r: Rewrite| r.view_of())
}

/// One physical file relocation inside a plan.
pub struct FileMove {
    /// Project-relative file being moved.
    pub source: String,
    /// Project-relative destination path.
    pub target: String,
}

/// Complete plan for moving `source` to `target`: a file move produces one
/// [`FileMove`], a directory move one per indexed member (see [`dir`]).
pub struct MovePlan {
    /// Requested source: the file, or the directory whose members move.
    pub source: String,
    /// Requested destination.
    pub target: String,
    /// Every physical relocation, in sorted source order.
    pub moves: Vec<FileMove>,
    /// Specifier/package rewrites, merged across moves, sorted by (file, span).
    pub rewrites: Vec<Rewrite>,
    /// Directory moves only: real files under `source` that no plan step
    /// moves (unindexable assets) — reported, never silently relocated.
    pub left_behind: Vec<String>,
    /// Directory moves only: source directories to prune (deepest first)
    /// once every move landed.
    pub prune_dirs: Vec<String>,
}

/// The new specifier a TS/JS importer gets for `target`: the alias form
/// when the old specifier's alias still maps there, else the relative one.
pub open spec fn ts_new_text(aliases: Seq<AliasView>, files: Set<Seq<char>>, importer: Seq<char>, specifier: Seq<char>, target: Seq<char>) -> Seq<char> {
    match remap_alias(aliases, specifier, target, files) {
        Some(t) => t,
        None => relative_spec(importer, target),
    }
}

/// The TS/JS rewrites of one importer's edges to `source`, in edge order;
/// rewrites that would not change the text are dropped.
pub open spec fn ts_edge_rewrites(aliases: Seq<AliasView>, files: Set<Seq<char>>, importer: Seq<char>, es: Seq<ResolvedImport>, source: Seq<char>, target: Seq<char>) -> Seq<RewriteView>
    decreases es.len(),
{
    if es.len() == 0 {
        Seq::empty()
    } else {
        let rest = ts_edge_rewrites(aliases, files, importer, es.drop_last(), source, target);
        let e = es.last();
        let nt = ts_new_text(aliases, files, importer, e.record.specifier@, target);
        if targets_file(e, source) && nt != e.record.specifier@ {
            rest.push((importer, e.record.span.start as int, e.record.span.end as int, e.record.specifier@, nt))
        } else {
            rest
        }
    }
}

/// The TS/JS rewrites over every importer entry, in entry order.
pub open spec fn ts_all_rewrites(aliases: Seq<AliasView>, files: Set<Seq<char>>, entries: Seq<(String, Vec<ResolvedImport>)>, source: Seq<char>, target: Seq<char>) -> Seq<RewriteView>
    decreases entries.len(),
{
    if entries.len() == 0 {
        Seq::empty()
    } else {
        ts_all_rewrites(aliases, files, entries.drop_last(), source, target)
            + ts_edge_rewrites(aliases, files, entries.last().0@, entries.last().1@, source, target)
    }
}

/// The rewrites of moving the TS/JS module `source` to `target`.
pub open spec fn ts_rewrites_of(index: Index, source: Seq<char>, target: Seq<char>) -> Seq<RewriteView> {
    ts_all_rewrites(index.aliases@, index.files@, index.imports.entries_spec(), source, target)
}

/// `rw` holds exactly `expected` (as a multiset), ordered by file, then
/// span start.
pub open spec fn rewrites_are(rw: Seq<Rewrite>, expected: Seq<RewriteView>) -> bool {
    rewrite_views(rw).to_multiset() == expected.to_multiset() && sorted_by(rw)
}

/// Relative-specifier rewrites for the TS/JS flavour of the graph. Aliased
/// imports keep their alias shape when the new location still round-trips
/// through the same mapping; everything else gets the relative rewrite.
/// No-op rewrites never reach the result.
pub fn ts_rewrites(index: &Index, source: &str, target: &str) -> (r: Vec<Rewrite>)
    ensures
        rewrites_are(r@, ts_rewrites_of(*index, source@, target@)),
{
    index.imports.view_facts();
    let entries = index.imports.entries();
    let ghost e = entries@;
    let mut out: Vec<Rewrite> = Vec::new();
    let mut i: usize = 0;
    while i < entries.len()
        invariant
            i <= e.len(),
            e == entries@,
            e == index.imports.entries_spec(),
            rewrite_views(out@) == ts_all_rewrites(index.aliases@, index.files@, e.take(i as int), source@, target@),
        decreases e.len() - i,
    {
        let importer = &entries[i].0;
        let edges = &entries[i].1;
        let ghost base = rewrite_views(out@);
        let mut j: usize = 0;
        while j < edges.len()
            invariant
                i < e.len(),
                j <= edges@.len(),
                importer == &e[i as int].0,
                edges@ == e[i as int].1@,
                rewrite_views(out@) == base + ts_edge_rewrites(index.aliases@, index.files@, importer@, edges@.take(j as int), source@, target@),
            decreases edges.len() - j,
        {
            let edge = &edges[j];
            assert(edges@.take(j + 1).drop_last() =~= edges@.take(j as int));
            assert(edges@.take(j + 1).last() == edge);
            let hits = match &edge.target {
                Some(t) => str_eq(t.as_str(), source),
                None => false,
            };
            if hits {
                let new_text = match index.aliases.remap(edge.record.specifier.as_str(), target, &index.files) {
                    Some(t) => t,
                    None => relative_specifier(importer.as_str(), target),
                };
                if !str_eq(new_text.as_str(), edge.record.specifier.as_str()) {
                    let ghost before = out@;
                    out.push(Rewrite {
                        file: importer.clone(),
                        span: edge.record.span.start..edge.record.span.end,
                        old_text: edge.record.specifier.clone(),
                        new_text,
                    });
                    assert(rewrite_views(out@) =~= rewrite_views(before).push(out@.last().view_of()));
                }
            }
            j += 1;
        }
        assert(edges@.take(edges@.len() as int) =~= edges@);
        assert(e.take(i + 1).drop_last() =~= e.take(i as int));
        assert(e.take(i + 1).last() == e[i as int]);
        i += 1;
    }
    assert(e.take(e.len() as int) =~= e);
    let ghost unsorted = out@;
    let r = sort_stable(out);
    proof {
        crate::order::lemma_map_multiset(r@, unsorted, |x: Rewrite| x.view_of());
    }
    r
}

/// Whether `p` is a Java source file.
pub open spec fn is_java(p: Seq<char>) -> bool {
    language_of_path(p) == Some(SourceLanguage::Java)
}

/// The per-file rewrite set: Java moves rewrite the `package` declaration
/// too; shared by single-file and directory planning.
pub fn file_rewrites(index: &Index, source: &str, target: &str) -> (r: JmoveResult<Vec<Rewrite>>)
    ensures
        file_rewrites_are(*index, source@, target@, r),
{
    if SourceLanguage::for_path(source) == Some(SourceLanguage::Java) {
        let r = java::java_rewrites(index, source, target);
        proof {
            if r is Ok && !index.packages@.contains_key(source@) && java::java_refusal(*index, source@, target@) is None {
                let rw = r->Ok_0;
                assert(rewrite_views(rw@) =~= Seq::<RewriteView>::empty());
            }
        }
        r
    } else {
        Ok(ts_rewrites(index, source, target))
    }
}

/// The rewrites moving `s` to `t` produces when it is not refused.
pub open spec fn file_expected(index: Index, s: Seq<char>, t: Seq<char>) -> Seq<RewriteView> {
    if is_java(s) {
        if index.packages@.contains_key(s) {
            java::java_expected(index, s, t)
        } else {
            Seq::empty()
        }
    } else {
        ts_rewrites_of(index, s, t)
    }
}

/// Why moving `s` to `t` is refused, if it is (only Java moves can be).
pub open spec fn file_refusal(index: Index, s: Seq<char>, t: Seq<char>) -> Option<(bool, Seq<char>)> {
    if is_java(s) {
        java::java_refusal(index, s, t)
    } else {
        None
    }
}

/// What [`file_rewrites`] answers.
pub open spec fn file_rewrites_are(index: Index, s: Seq<char>, t: Seq<char>, r: JmoveResult<Vec<Rewrite>>) -> bool {
    match file_refusal(index, s, t) {
        Some(refusal) => r matches Err(e) && java::is_refusal(e, refusal),
        None => r matches Ok(rw) && rewrites_are(rw@, file_expected(index, s, t)),
    }
}

/// What [`plan_move`] answers for a single-file move between the
/// normalized paths `s` and `t`.
pub open spec fn file_plan_ok(index: Index, s: Seq<char>, t: Seq<char>, r: JmoveResult<MovePlan>) -> bool {
    if !index.files@.contains(s) {
        r matches Err(JmoveError::InvalidArgument(m)) && m@ == "source '"@ + rel_text(s) + "' is not an indexed file"@
    } else if index.files@.contains(t) {
        r matches Err(JmoveError::PlanRejected(m)) && m@ == "target '"@ + rel_text(t) + "' already exists"@
    } else {
        match file_refusal(index, s, t) {
            Some(refusal) => r matches Err(e) && java::is_refusal(e, refusal),
            None => match r {
                Ok(plan) => {
                    &&& plan.source@ == s
                    &&& plan.target@ == t
                    &&& plan.moves@.len() == 1
                    &&& plan.moves@[0].source@ == s
                    &&& plan.moves@[0].target@ == t
                    &&& plan.left_behind@.len() == 0
                    &&& plan.prune_dirs@.len() == 0
                    &&& rewrites_are(plan.rewrites@, file_expected(index, s, t))
                },
                Err(_) => false,
            },
        }
    }
}

/// Compute the rewrite plan for `source -> target`. When the normalized
/// `source` is a directory on disk, `dir_files` lists the real files found
/// under it (project-relative), and the move becomes a mirrored move of
/// all indexed members below it (see [`dir`]).
///
/// TS/JS: every indexed import whose resolved target equals the moved file
/// gets a new relative specifier from the importer's directory to its
/// destination (see [`relative_specifier`]). Java moves additionally
/// rewrite the moved file's `package` declaration (see [`java`]). Rewrites
/// whose result equals the old specifier are dropped; the result is sorted
/// by (file, span).
pub fn plan_move(index: &Index, source: &str, target: &str, dir_files: Option<Vec<String>>) -> (r: JmoveResult<MovePlan>)
    ensures
        match (normalized(source@), normalized(target@)) {
            (None, _) => r matches Err(JmoveError::InvalidArgument(m)) && m@ == "invalid source path '"@ + source@ + "'"@,
            (Some(_), None) => r matches Err(JmoveError::InvalidArgument(m)) && m@ == "invalid target path '"@ + target@ + "'"@,
            (Some(s), Some(t)) => if s == t {
                r matches Err(JmoveError::PlanRejected(m)) && m@ == "source and target are the same"@
            } else {
                match dir_files {
                    Some(walked) => dir::dir_plan_ok(*index, s, t, crate::order::texts(walked@), r),
                    None => file_plan_ok(*index, s, t, r),
                }
            },
        },
{
    proof {
        reveal_strlit("invalid source path '");
        reveal_strlit("invalid target path '");
        reveal_strlit("'");
        reveal_strlit("source and target are the same");
        reveal_strlit("source '");
        reveal_strlit("' is not an indexed file");
        reveal_strlit("target '");
        reveal_strlit("' already exists");
    }
    let s = match normalize_rel_path(source) {
        Some(s) => s,
        None => return Err(JmoveError::InvalidArgument(concat3("invalid source path '", source, "'"))),
    };
    let t = match normalize_rel_path(target) {
        Some(t) => t,
        None => return Err(JmoveError::InvalidArgument(concat3("invalid target path '", target, "'"))),
    };
    if str_eq(s.as_str(), t.as_str()) {
        return Err(JmoveError::PlanRejected(String::from_str("source and target are the same")));
    }
    proof {
        crate::path::law_normalization_is_idempotent(source@);
        crate::path::law_normalization_is_idempotent(target@);
    }
    match dir_files {
        Some(walked) => {
            return dir::plan_dir(index, s.as_str(), t.as_str(), walked);
        },
        None => {},
    }
    if !index.files.contains(s.as_str()) {
        let shown = rel_str(s.as_str());
        return Err(JmoveError::InvalidArgument(concat3("source '", shown.as_str(), "' is not an indexed file")));
    }
    if index.files.contains(t.as_str()) {
        let shown = rel_str(t.as_str());
        return Err(JmoveError::PlanRejected(concat3("target '", shown.as_str(), "' already exists")));
    }
    let rewrites = match file_rewrites(index, s.as_str(), t.as_str()) {
        Ok(rw) => rw,
        Err(e) => return Err(e),
    };
    let mut moves: Vec<FileMove> = Vec::new();
    moves.push(FileMove { source: s.clone(), target: t.clone() });
    Ok(MovePlan { source: s, target: t, moves, rewrites, left_behind: Vec::new(), prune_dirs: Vec::new() })
}

} // verus!

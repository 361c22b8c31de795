//! The payloads and texts both output modes share: per-file rewrite
//! detail, the `mv` pre-flight checks and summary, and the `check`
//! findings (unresolvable relative imports, Java file-name ⇄ public-class
//! mismatches). Reading files and printing stay with the caller.

use vstd::prelude::*;

use crate::cli::json::ErrorData;
use crate::engine::apply::fsops::{edit_views, group_by_file, grouped, EditView};
use crate::engine::index::{Index, ResolvedImport};
use crate::engine::plan::{rewrite_views, MovePlan};
use crate::engine::refs::NonImportRef;
use crate::engine::{line_at, line_of, rel_str};
use crate::map::TextMap;
use crate::order::{chars_lt, text_lt, texts};
use crate::parser::java::class_name::{mismatch, mismatch_spec};
use crate::parser::{language_of_path, SourceLanguage};
use crate::path::{comps, extension, extension_of, join_path, parent, parent_of, push_path, rel_text};
use crate::text::{chars_of, decimal, push_str, string_of, usize_text, utf8};

verus! {

/// `count noun` with a naive English plural: `noun`, or `nouns` unless the
/// count is one.
pub open spec fn plural_spec(count: usize, noun: Seq<char>) -> Seq<char> {
    if count == 1 {
        noun
    } else {
        noun + "s"@
    }
}

/// The noun, pluralised unless `count` is one.
pub fn plural(count: usize, noun: &str) -> (r: String)
    ensures
        r@ == plural_spec(count, noun@),
{
    let mut r = String::from_str(noun);
    if count != 1 {
        push_str(&mut r, "s");
    }
    r
}

/// One rewritten import inside a changed file.
pub struct Change {
    /// 1-based line of the rewritten specifier.
    pub line: usize,
    /// Specifier text before the move.
    pub old: String,
    /// Specifier text after the move.
    pub new: String,
}

/// A file whose imports were rewritten, with line-level detail.
pub struct ChangedFile {
    /// Project-relative path of the importer.
    pub path: String,
    /// Rewritten specifiers, in source order.
    pub changes: Vec<Change>,
}

/// The 1-based line of byte `at` of `text`, as [`line_of`] computes it.
pub open spec fn line_spec(text: Seq<char>, at: int) -> int {
    if line_at(utf8(text), at) <= usize::MAX {
        line_at(utf8(text), at) as int
    } else {
        usize::MAX as int
    }
}

/// The changes of one file's edits against its text.
pub open spec fn changes_spec(edits: Seq<EditView>, text: Seq<char>) -> Seq<(int, Seq<char>, Seq<char>)> {
    edits.map_values(|e: EditView| (line_spec(text, e.0), e.2, e.3))
}

/// The view of a change list.
pub open spec fn change_views(cs: Seq<Change>) -> Seq<(int, Seq<char>, Seq<char>)> {
    cs.map_values(|c: Change| (c.line as int, c.old@, c.new@))
}

/// The `changed_files` payload: the plan's rewrites grouped per importer
/// (files in path order, rewrites in order), each with the line of its
/// span in the file's text as `texts` holds it. `None` when the text of a
/// rewritten file is missing.
pub fn changed_files(plan: &MovePlan, texts_by_file: &TextMap<String>) -> (r: Option<Vec<ChangedFile>>)
    ensures
        r matches Some(files) ==> exists|groups: Seq<(String, Vec<crate::engine::Edit>)>| {
            &&& grouped(rewrite_views(plan.rewrites@), groups)
            &&& groups.len() == files@.len()
            &&& forall|a: int| 0 <= a < groups.len() ==> {
                &&& texts_by_file@.contains_key(#[trigger] groups[a].0@)
                &&& files@[a].path@ == rel_text(groups[a].0@)
                &&& change_views(files@[a].changes@) == changes_spec(edit_views(groups[a].1@), texts_by_file@[groups[a].0@]@)
            }
        },
        r is None ==> exists|groups: Seq<(String, Vec<crate::engine::Edit>)>| grouped(rewrite_views(plan.rewrites@), groups)
            && exists|a: int| 0 <= a < groups.len() && !texts_by_file@.contains_key(#[trigger] groups[a].0@),
{
    let groups = group_by_file(plan);
    let mut out: Vec<ChangedFile> = Vec::new();
    let mut a: usize = 0;
    while a < groups.len()
        invariant
            grouped(rewrite_views(plan.rewrites@), groups@),
            a <= groups@.len(),
            out@.len() == a,
            forall|b: int| 0 <= b < a ==> {
                &&& texts_by_file@.contains_key(#[trigger] groups@[b].0@)
                &&& out@[b].path@ == rel_text(groups@[b].0@)
                &&& change_views(out@[b].changes@) == changes_spec(edit_views(groups@[b].1@), texts_by_file@[groups@[b].0@]@)
            },
        decreases groups.len() - a,
    {
        let file = &groups[a].0;
        let text = match texts_by_file.get(file.as_str()) {
            Some(t) => t,
            None => {
                assert(!texts_by_file@.contains_key(groups@[a as int].0@));
                return None;
            },
        };
        let edits = &groups[a].1;
        let mut changes: Vec<Change> = Vec::new();
        let mut k: usize = 0;
        while k < edits.len()
            invariant
                k <= edits@.len(),
                change_views(changes@) == changes_spec(edit_views(edits@), text@).take(k as int),
            decreases edits.len() - k,
        {
            let e = &edits[k];
            let line = line_of(text.as_str(), e.span.start);
            let ch = Change { line, old: e.old_text.clone(), new: e.new_text.clone() };
            proof {
                crate::order::lemma_map_push(changes@, ch, |c: Change| (c.line as int, c.old@, c.new@));
                crate::order::lemma_map_take_push(edit_views(edits@), k as int, |e: EditView| (line_spec(text@, e.0), e.2, e.3));
            }
            changes.push(ch);
            k += 1;
        }
        assert(changes_spec(edit_views(edits@), text@).take(edits@.len() as int) =~= changes_spec(edit_views(edits@), text@));
        out.push(ChangedFile { path: rel_str(file.as_str()), changes });
        a += 1;
    }
    Some(out)
}

/// What [`mv_reject`] reports: code, message, hint.
pub open spec fn mv_reject_spec(
    source: Seq<char>,
    target: Seq<char>,
    source_exists: bool,
    target_exists: bool,
    parent_exists: bool,
    parent_is_dir: bool,
) -> Option<(Seq<char>, Seq<char>, Seq<char>)> {
    if comps(source) == comps(target) {
        Some(("INVALID_ARGUMENT"@, "source and target are the same path"@, "pick a different destination"@))
    } else if !source_exists {
        Some((
            "SOURCE_NOT_FOUND"@,
            "source file '"@ + rel_text(source) + "' does not exist"@,
            "check the path or run `jmove check`"@,
        ))
    } else if target_exists {
        Some((
            "TARGET_EXISTS"@,
            "target path '"@ + rel_text(target) + "' already exists"@,
            "remove or rename the existing target first"@,
        ))
    } else if parent_exists && !parent_is_dir {
        Some((
            "INVALID_ARGUMENT"@,
            "target parent of '"@ + rel_text(target) + "' is not a directory"@,
            "pick a destination inside a directory"@,
        ))
    } else {
        None
    }
}

/// Pre-flight `mv` validation of project-relative `source` and `target`,
/// given what the file system says: whether the source is a file or a
/// directory, whether the target exists, and whether the target's parent
/// exists and is a directory. A file absent from the import index stays
/// moveable: its plan simply has no rewrites.
pub fn mv_reject(
    source: &str,
    target: &str,
    source_exists: bool,
    target_exists: bool,
    parent_exists: bool,
    parent_is_dir: bool,
) -> (r: Option<ErrorData>)
    ensures
        crate::cli::json::error_matches(r, mv_reject_spec(source@, target@, source_exists, target_exists, parent_exists, parent_is_dir)),
{
    if crate::engine::plan::java::same_path(source, target) {
        return Some(ErrorData::new("INVALID_ARGUMENT", String::from_str("source and target are the same path"), Some(String::from_str("pick a different destination"))));
    }
    if !source_exists {
        let m = crate::engine::concat3("source file '", rel_str(source).as_str(), "' does not exist");
        return Some(ErrorData::new("SOURCE_NOT_FOUND", m, Some(String::from_str("check the path or run `jmove check`"))));
    }
    if target_exists {
        let m = crate::engine::concat3("target path '", rel_str(target).as_str(), "' already exists");
        return Some(ErrorData::new("TARGET_EXISTS", m, Some(String::from_str("remove or rename the existing target first"))));
    }
    if parent_exists && !parent_is_dir {
        let m = crate::engine::concat3("target parent of '", rel_str(target).as_str(), "' is not a directory");
        return Some(ErrorData::new("INVALID_ARGUMENT", m, Some(String::from_str("pick a destination inside a directory"))));
    }
    None
}

/// The `mv` success summary.
pub open spec fn mv_summary_spec(source: Seq<char>, target: Seq<char>, moves: usize, imports: usize, files: usize, left: usize, via_git: bool) -> Seq<char> {
    let batch = if moves == 1 {
        Seq::empty()
    } else {
        " ("@ + decimal(moves as nat) + " files)"@
    };
    let git = if via_git {
        " (via git mv)"@
    } else {
        Seq::empty()
    };
    let tail = if left == 0 {
        Seq::empty()
    } else {
        ", "@ + decimal(left as nat) + " unsupported "@ + plural_spec(left, "file"@) + " left behind"@
    };
    "moved "@ + rel_text(source) + " -> "@ + rel_text(target) + batch + git + ", updated "@ + decimal(imports as nat) + " "@
        + plural_spec(imports, "import"@) + " in "@ + decimal(files as nat) + " "@ + plural_spec(files, "file"@) + tail
}

/// `moved src -> tgt, updated N imports in M files`, noting the `git mv`
/// backend and, for directory moves, the file count and anything
/// unindexable that stays behind. M counts the importer files (the
/// plan's rewrites grouped per file).
pub fn mv_summary(plan: &MovePlan, via_git: bool) -> (r: String)
    ensures
        exists|groups: Seq<(String, Vec<crate::engine::Edit>)>| grouped(rewrite_views(plan.rewrites@), groups)
            && r@ == mv_summary_spec(plan.source@, plan.target@, plan.moves@.len() as usize, plan.rewrites@.len() as usize,
                groups.len() as usize, plan.left_behind@.len() as usize, via_git),
{
    let imports = plan.rewrites.len();
    let groups = group_by_file(plan);
    let files = groups.len();
    let mut r = String::from_str("moved ");
    push_str(&mut r, rel_str(plan.source.as_str()).as_str());
    push_str(&mut r, " -> ");
    push_str(&mut r, rel_str(plan.target.as_str()).as_str());
    let n = plan.moves.len();
    if n != 1 {
        push_str(&mut r, " (");
        push_str(&mut r, usize_text(n).as_str());
        push_str(&mut r, " files)");
    }
    if via_git {
        push_str(&mut r, " (via git mv)");
    }
    push_str(&mut r, ", updated ");
    push_str(&mut r, usize_text(imports).as_str());
    push_str(&mut r, " ");
    push_str(&mut r, plural(imports, "import").as_str());
    push_str(&mut r, " in ");
    push_str(&mut r, usize_text(files).as_str());
    push_str(&mut r, " ");
    push_str(&mut r, plural(files, "file").as_str());
    let left = plan.left_behind.len();
    if left != 0 {
        push_str(&mut r, ", ");
        push_str(&mut r, usize_text(left).as_str());
        push_str(&mut r, " unsupported ");
        push_str(&mut r, plural(left, "file").as_str());
        push_str(&mut r, " left behind");
    }
    assert(r@ =~= mv_summary_spec(plan.source@, plan.target@, n, imports, files, left, via_git));
    r
}

} // verus!

verus! {

/// One unresolvable relative import found by `check`.
pub struct BrokenImport {
    /// Project-relative file declaring the import.
    pub file: String,
    /// 1-based line of the specifier.
    pub line: usize,
    /// Specifier text as written.
    pub import: String,
    /// Stable reason code, always `"file_not_found"`.
    pub reason: &'static str,
}

/// A Java file whose single public top-level type is named differently
/// from the file: repaired by renaming the file (the class name, and so
/// every import of it, stays valid).
pub struct NameMismatch {
    /// Project-relative file with the wrong name.
    pub file: String,
    /// 1-based line of the public type's name.
    pub line: usize,
    /// Declared public type.
    pub public_class: String,
    /// Project-relative file it should live in.
    pub expected_file: String,
    /// Copy-paste repair command (paths quoted).
    pub rename: String,
}

/// Success payload of `check --json`.
pub struct CheckData {
    /// Broken imports, sorted by file then line.
    pub broken_imports: Vec<BrokenImport>,
    /// Number of broken imports.
    pub total: usize,
    /// Java layout findings.
    pub name_mismatches: Vec<NameMismatch>,
}

/// Findings ordered by file text, then line.
pub open spec fn site_lt(a: (Seq<char>, int), b: (Seq<char>, int)) -> bool {
    text_lt(a.0, b.0) || (a.0 == b.0 && a.1 < b.1)
}

proof fn lemma_site_order(a: (Seq<char>, int), b: (Seq<char>, int), c: (Seq<char>, int))
    ensures
        !site_lt(a, a),
        site_lt(a, b) && site_lt(b, c) ==> site_lt(a, c),
        !site_lt(a, b) && !site_lt(b, a) ==> a.0 == b.0 && a.1 == b.1,
{
    crate::order::lemma_text_order(a.0, b.0, c.0);
    crate::order::lemma_text_order(b.0, a.0, c.0);
    crate::order::lemma_text_order(a.0, a.0, a.0);
}

proof fn lemma_site_total_preorder(a: (Seq<char>, int), b: (Seq<char>, int), c: (Seq<char>, int))
    ensures
        !site_lt(b, a) || !site_lt(a, b),
        !site_lt(b, a) && !site_lt(c, b) ==> !site_lt(c, a),
{
    lemma_site_order(a, b, a);
    lemma_site_order(a, b, c);
    lemma_site_order(b, a, c);
    lemma_site_order(c, b, a);
    lemma_site_order(c, a, b);
    lemma_site_order(a, c, b);
    lemma_site_order(b, c, a);
}

/// `(a_file, a_line)` comes after `(b_file, b_line)`.
fn site_after(a_file: &str, a_line: usize, b_file: &str, b_line: usize) -> (r: bool)
    ensures
        r == site_lt((b_file@, b_line as int), (a_file@, a_line as int)),
{
    let a = chars_of(a_file);
    let b = chars_of(b_file);
    if chars_lt(b.as_slice(), a.as_slice()) {
        return true;
    }
    if chars_lt(a.as_slice(), b.as_slice()) {
        return false;
    }
    proof {
        crate::order::lemma_text_order(a_file@, b_file@, a_file@);
    }
    b_line < a_line
}

/// The sort key of a broken import.
pub open spec fn broken_site(b: BrokenImport) -> (Seq<char>, int) {
    (b.file@, b.line as int)
}

/// The sort key of a mismatch.
pub open spec fn mismatch_site(m: NameMismatch) -> (Seq<char>, int) {
    (m.file@, m.line as int)
}

impl crate::order::TotalPreorder for BrokenImport {
    open spec fn le_spec(&self, other: &Self) -> bool {
        !site_lt(broken_site(*other), broken_site(*self))
    }

    proof fn lemma_total(a: &Self, b: &Self) {
        lemma_site_total_preorder(broken_site(*a), broken_site(*b), broken_site(*a));
    }

    proof fn lemma_transitive(a: &Self, b: &Self, c: &Self) {
        lemma_site_total_preorder(broken_site(*a), broken_site(*b), broken_site(*c));
    }

    fn le(&self, other: &Self) -> (r: bool) {
        !site_after(self.file.as_str(), self.line, other.file.as_str(), other.line)
    }
}

impl crate::order::TotalPreorder for NameMismatch {
    open spec fn le_spec(&self, other: &Self) -> bool {
        !site_lt(mismatch_site(*other), mismatch_site(*self))
    }

    proof fn lemma_total(a: &Self, b: &Self) {
        lemma_site_total_preorder(mismatch_site(*a), mismatch_site(*b), mismatch_site(*a));
    }

    proof fn lemma_transitive(a: &Self, b: &Self, c: &Self) {
        lemma_site_total_preorder(mismatch_site(*a), mismatch_site(*b), mismatch_site(*c));
    }

    fn le(&self, other: &Self) -> (r: bool) {
        !site_after(self.file.as_str(), self.line, other.file.as_str(), other.line)
    }
}

/// A broken import as the contracts see it: file, line, specifier.
pub type BrokenView = (Seq<char>, int, Seq<char>);

/// The view of a broken import.
pub open spec fn broken_view(b: BrokenImport) -> BrokenView {
    (b.file@, b.line as int, b.import@)
}

/// The views of a broken-import list.
pub open spec fn broken_views(s: Seq<BrokenImport>) -> Seq<BrokenView> {
    s.map_values(|b: BrokenImport| broken_view(b))
}

/// A relative specifier (starting with `.`) that resolves to nothing.
/// Bare package specifiers without a target are external dependencies.
pub open spec fn is_broken(e: ResolvedImport) -> bool {
    e.target is None && e.record.specifier@.len() > 0 && e.record.specifier@[0] == '.'
}

/// The broken imports among the first `k` imports of `file`.
pub open spec fn file_broken(file: Seq<char>, es: Seq<ResolvedImport>, text: Seq<char>, k: int) -> Seq<BrokenView>
    decreases k,
{
    if k <= 0 {
        Seq::empty()
    } else {
        let prev = file_broken(file, es, text, k - 1);
        let e = es[k - 1];
        if is_broken(e) {
            prev.push((rel_text(file), line_spec(text, e.record.span.start as int), e.record.specifier@))
        } else {
            prev
        }
    }
}

/// Some import of `es` is broken.
pub open spec fn has_broken(es: Seq<ResolvedImport>) -> bool {
    exists|i: int| 0 <= i < es.len() && is_broken(#[trigger] es[i])
}

/// The broken imports of the first `n` files of an import table.
pub open spec fn all_broken(entries: Seq<(String, Vec<ResolvedImport>)>, texts_by_file: Map<Seq<char>, String>, n: int) -> Seq<BrokenView>
    decreases n,
{
    if n <= 0 {
        Seq::empty()
    } else {
        let e = entries[n - 1];
        all_broken(entries, texts_by_file, n - 1) + file_broken(e.0@, e.1@, texts_by_file[e.0@]@, e.1@.len() as int)
    }
}

/// The broken imports of `index`, each with the line of its specifier in
/// its file's text as `texts_by_file` holds it: sorted by file, then line.
/// `None` exactly when a file with a broken import has no text.
pub fn broken_imports(index: &Index, texts_by_file: &TextMap<String>) -> (r: Option<Vec<BrokenImport>>)
    ensures
        r is None <==> exists|a: int| 0 <= a < index.imports.entries_spec().len()
            && has_broken((#[trigger] index.imports.entries_spec()[a]).1@)
            && !texts_by_file@.contains_key(index.imports.entries_spec()[a].0@),
        r matches Some(v) ==> {
            &&& broken_views(v@).to_multiset() == all_broken(index.imports.entries_spec(), texts_by_file@, index.imports.entries_spec().len() as int).to_multiset()
            &&& crate::order::sorted_by(v@)
            &&& exists|u: Seq<BrokenImport>| #![trigger crate::order::insertion_sorted(u)]
                broken_views(u) == all_broken(index.imports.entries_spec(), texts_by_file@, index.imports.entries_spec().len() as int)
                && v@ == crate::order::insertion_sorted(u)
            &&& forall|i: int| 0 <= i < v@.len() ==> (#[trigger] v@[i]).reason@ == "file_not_found"@
        },
{
    let entries = index.imports.entries();
    let ghost es = index.imports.entries_spec();
    let mut out: Vec<BrokenImport> = Vec::new();
    let mut a: usize = 0;
    while a < entries.len()
        invariant
            entries@ == es,
            es == index.imports.entries_spec(),
            a <= es.len(),
            broken_views(out@) == all_broken(es, texts_by_file@, a as int),
            forall|i: int| 0 <= i < out@.len() ==> (#[trigger] out@[i]).reason@ == "file_not_found"@,
            forall|b: int| 0 <= b < a && has_broken((#[trigger] es[b]).1@) ==> texts_by_file@.contains_key(es[b].0@),
        decreases entries.len() - a,
    {
        let file = &entries[a].0;
        let imports = &entries[a].1;
        let ghost head = broken_views(out@);
        let mut text: Option<&String> = None;
        let mut k: usize = 0;
        while k < imports.len()
            invariant
                entries@ == es,
                es == index.imports.entries_spec(),
                a < es.len(),
                file == es[a as int].0,
                imports == es[a as int].1,
                k <= imports@.len(),
                text matches Some(t) ==> texts_by_file@.contains_key(file@) && t == texts_by_file@[file@],
                (exists|j: int| 0 <= j < k && is_broken(#[trigger] imports@[j])) ==> text is Some,
                broken_views(out@) == head + file_broken(file@, imports@, texts_by_file@[file@]@, k as int),
                forall|i: int| 0 <= i < out@.len() ==> (#[trigger] out@[i]).reason@ == "file_not_found"@,
            decreases imports.len() - k,
        {
            let e = &imports[k];
            let sp = chars_of(e.record.specifier.as_str());
            let relative = e.target.is_none() && sp.len() > 0 && sp[0] == '.';
            assert(relative == is_broken(*e));
            if relative {
                if text.is_none() {
                    match texts_by_file.get(file.as_str()) {
                        Some(t) => {
                            text = Some(t);
                        },
                        None => {
                            proof {
                                assert(is_broken(imports@[k as int]));
                                assert(has_broken(es[a as int].1@));
                            }
                            return None;
                        },
                    }
                }
                let t = text.unwrap();
                let line = line_of(t.as_str(), e.record.span.start);
                let ghost before = out@;
                out.push(BrokenImport {
                    file: rel_str(file.as_str()),
                    line,
                    import: e.record.specifier.clone(),
                    reason: "file_not_found",
                });
                assert(broken_views(out@) =~= broken_views(before).push(broken_view(out@.last())));
            }
            k += 1;
        }
        proof {
            if has_broken(imports@) {
                let j = choose|j: int| 0 <= j < imports@.len() && is_broken(#[trigger] imports@[j]);
                assert(text is Some);
            }
        }
        a += 1;
    }
    proof {
        assert forall|b: int| 0 <= b < es.len() && #[trigger] has_broken(es[b].1@) implies texts_by_file@.contains_key(es[b].0@) by {}
    }
    let ghost unsorted = out@;
    let sorted = crate::order::sort_stable(out);
    proof {
        broadcast use vstd::seq_lib::group_to_multiset_ensures;
        assert(sorted@ == crate::order::insertion_sorted(unsorted));
        assert forall|i: int| 0 <= i < sorted@.len() implies (#[trigger] sorted@[i]).reason@ == "file_not_found"@ by {
            assert(sorted@.contains(sorted@[i]));
            assert(sorted@.to_multiset().count(sorted@[i]) > 0);
            assert(out@.to_multiset().count(sorted@[i]) > 0);
            assert(out@.contains(sorted@[i]));
            let j = choose|j: int| 0 <= j < out@.len() && out@[j] == sorted@[i];
            assert(out@[j].reason@ == "file_not_found"@);
        }
        crate::order::lemma_map_multiset(sorted@, out@, |b: BrokenImport| broken_view(b));
    }
    Some(sorted)
}

} // verus!

verus! {

/// A mismatch as the contracts see it: file, line, public class,
/// expected file, rename command.
pub type MismatchView = (Seq<char>, int, Seq<char>, Seq<char>, Seq<char>);

/// The view of a mismatch entry.
pub open spec fn mismatch_entry_view(m: NameMismatch) -> MismatchView {
    (m.file@, m.line as int, m.public_class@, m.expected_file@, m.rename@)
}

/// The views of a mismatch list.
pub open spec fn mismatch_views(s: Seq<NameMismatch>) -> Seq<MismatchView> {
    s.map_values(|m: NameMismatch| mismatch_entry_view(m))
}

/// Where the public type `class` of `file` should live: the same
/// directory, the class name and the file's extension (`java` when it has
/// none), rendered project-relative.
pub open spec fn expected_file_of(file: Seq<char>, class: Seq<char>) -> Seq<char> {
    let dir = match parent_of(file) {
        Some(d) => d,
        None => Seq::empty(),
    };
    let ext = match extension_of(file) {
        Some(e) => e,
        None => "java"@,
    };
    rel_text(join_path(dir, class + "."@ + ext))
}

/// The finding `check` reports for a Java file with contents `text`.
pub open spec fn mismatch_finding(file: Seq<char>, text: Seq<char>) -> Option<MismatchView> {
    match mismatch_spec(file, text) {
        None => None,
        Some((class, start, _end)) => {
            let old = rel_text(file);
            let new = expected_file_of(file, class);
            Some((old, line_spec(text, start), class, new, "jmove mv '"@ + old + "' '"@ + new + "'"@))
        },
    }
}

/// The findings of the first `n` files of `files` (Java files only).
pub open spec fn all_mismatches(files: Seq<Seq<char>>, texts_by_file: Map<Seq<char>, String>, n: int) -> Seq<MismatchView>
    decreases n,
{
    if n <= 0 {
        Seq::empty()
    } else {
        let prev = all_mismatches(files, texts_by_file, n - 1);
        let f = files[n - 1];
        if language_of_path(f) == Some(SourceLanguage::Java) {
            match mismatch_finding(f, texts_by_file[f]@) {
                Some(m) => prev.push(m),
                None => prev,
            }
        } else {
            prev
        }
    }
}

/// Java files whose only public top-level type disagrees with the file
/// name, each with the line of the type's name and the rename that
/// repairs it; sorted by file, then line. `None` exactly when an indexed
/// Java file has no text in `texts_by_file`.
pub fn name_mismatches(index: &Index, texts_by_file: &TextMap<String>) -> (r: Option<Vec<NameMismatch>>)
    ensures
        r is None <==> exists|f: Seq<char>| #[trigger] index.files@.contains(f) && language_of_path(f) == Some(SourceLanguage::Java)
            && !texts_by_file@.contains_key(f),
        r matches Some(v) ==> {
            &&& exists|fs: Seq<Seq<char>>, u: Seq<NameMismatch>| #![trigger fs.to_set(), crate::order::insertion_sorted(u)] {
                &&& fs.to_set() == index.files@
                &&& fs.no_duplicates()
                &&& mismatch_views(v@).to_multiset() == all_mismatches(fs, texts_by_file@, fs.len() as int).to_multiset()
                &&& mismatch_views(u) == all_mismatches(fs, texts_by_file@, fs.len() as int)
                &&& v@ == crate::order::insertion_sorted(u)
            }
            &&& crate::order::sorted_by(v@)
        },
{
    let files = index.files.sorted();
    let ghost fs = crate::engine::index::files::string_views(files@);
    let mut out: Vec<NameMismatch> = Vec::new();
    let mut a: usize = 0;
    while a < files.len()
        invariant
            fs == crate::engine::index::files::string_views(files@),
            fs.to_set() == index.files@,
            a <= files@.len(),
            mismatch_views(out@) == all_mismatches(fs, texts_by_file@, a as int),
            forall|b: int| 0 <= b < a && language_of_path(#[trigger] fs[b]) == Some(SourceLanguage::Java) ==> texts_by_file@.contains_key(fs[b]),
        decreases files.len() - a,
    {
        let file = files[a].as_str();
        assert(fs[a as int] == file@);
        match SourceLanguage::for_path(file) {
            Some(SourceLanguage::Java) => {},
            _ => {
                a += 1;
                continue;
            },
        }
        let text = match texts_by_file.get(file) {
            Some(t) => t,
            None => {
                assert(fs.contains(file@));
                assert(fs.to_set().contains(file@));
                return None;
            },
        };
        match mismatch(file, text.as_str()) {
            None => {},
            Some(found) => {
                let dir: Vec<char> = match parent(file) {
                    Some(d) => d,
                    None => Vec::new(),
                };
                let ext: Vec<char> = match extension(file) {
                    Some(e) => e,
                    None => chars_of("java"),
                };
                let mut name = chars_of(found.public_class.as_str());
                crate::text::extend_chars(&mut name, chars_of(".").as_slice());
                crate::text::extend_chars(&mut name, ext.as_slice());
                let mut target = dir;
                push_path(&mut target, name.as_slice());
                let old = rel_str(file);
                let new = rel_str(string_of(target.as_slice()).as_str());
                let mut rename = String::from_str("jmove mv '");
                push_str(&mut rename, old.as_str());
                push_str(&mut rename, "' '");
                push_str(&mut rename, new.as_str());
                push_str(&mut rename, "'");
                let line = line_of(text.as_str(), found.span.start);
                let m = NameMismatch { file: old, line, public_class: found.public_class, expected_file: new, rename };
                assert(mismatch_finding(file@, text@) == Some(mismatch_entry_view(m)));
                proof {
                    crate::order::lemma_map_push(out@, m, |m: NameMismatch| mismatch_entry_view(m));
                }
                out.push(m);
            },
        }
        a += 1;
    }
    proof {
        if exists|f: Seq<char>| #[trigger] index.files@.contains(f) && language_of_path(f) == Some(SourceLanguage::Java)
            && !texts_by_file@.contains_key(f) {
            let f = choose|f: Seq<char>| #[trigger] index.files@.contains(f) && language_of_path(f) == Some(SourceLanguage::Java)
                && !texts_by_file@.contains_key(f);
            assert(fs.to_set().contains(f));
            assert(fs.contains(f));
            let b = choose|b: int| 0 <= b < fs.len() && fs[b] == f;
            assert(texts_by_file@.contains_key(fs[b]));
        }
    }
    let ghost unsorted = out@;
    let sorted = crate::order::sort_stable(out);
    proof {
        crate::order::lemma_map_multiset(sorted@, unsorted, |m: NameMismatch| mismatch_entry_view(m));
        assert(sorted@ == crate::order::insertion_sorted(unsorted));
    }
    Some(sorted)
}

} // verus!

verus! {

/// The terminal line of a broken import.
pub open spec fn broken_line(b: BrokenImport) -> Seq<char> {
    b.file@ + ":"@ + decimal(b.line as nat) + ": cannot resolve '"@ + b.import@ + "'"@
}

/// The terminal line of a layout mismatch.
pub open spec fn mismatch_line(m: NameMismatch) -> Seq<char> {
    m.file@ + ":"@ + decimal(m.line as nat) + ": public class '"@ + m.public_class@ + "' must live in '"@ + m.expected_file@
        + "'; fix: "@ + m.rename@
}

/// The human `check` report: the clean note, or one line per broken
/// import and one per layout mismatch.
pub open spec fn check_report_spec(broken: Seq<BrokenImport>, mismatches: Seq<NameMismatch>) -> Seq<Seq<char>> {
    if broken.len() == 0 && mismatches.len() == 0 {
        seq!["check: no findings"@]
    } else {
        broken.map_values(|b: BrokenImport| broken_line(b)) + mismatches.map_values(|m: NameMismatch| mismatch_line(m))
    }
}

fn broken_text(b: &BrokenImport) -> (r: String)
    ensures
        r@ == broken_line(*b),
{
    let mut r = String::from_str(b.file.as_str());
    push_str(&mut r, ":");
    push_str(&mut r, usize_text(b.line).as_str());
    push_str(&mut r, ": cannot resolve '");
    push_str(&mut r, b.import.as_str());
    push_str(&mut r, "'");
    assert(r@ =~= broken_line(*b));
    r
}

fn mismatch_text(m: &NameMismatch) -> (r: String)
    ensures
        r@ == mismatch_line(*m),
{
    let mut r = String::from_str(m.file.as_str());
    push_str(&mut r, ":");
    push_str(&mut r, usize_text(m.line).as_str());
    push_str(&mut r, ": public class '");
    push_str(&mut r, m.public_class.as_str());
    push_str(&mut r, "' must live in '");
    push_str(&mut r, m.expected_file.as_str());
    push_str(&mut r, "'; fix: ");
    push_str(&mut r, m.rename.as_str());
    assert(r@ =~= mismatch_line(*m));
    r
}

/// The lines of the human `check` report, for standard output.
pub fn report_check(broken: &Vec<BrokenImport>, mismatches: &Vec<NameMismatch>) -> (r: Vec<String>)
    ensures
        texts(r@) == check_report_spec(broken@, mismatches@),
{
    let mut out: Vec<String> = Vec::new();
    if broken.len() == 0 && mismatches.len() == 0 {
        out.push(String::from_str("check: no findings"));
        assert(texts(out@) =~= check_report_spec(broken@, mismatches@));
        return out;
    }
    let mut i: usize = 0;
    while i < broken.len()
        invariant
            i <= broken@.len(),
            texts(out@) == broken@.map_values(|b: BrokenImport| broken_line(b)).take(i as int),
        decreases broken.len() - i,
    {
        let t = broken_text(&broken[i]);
        proof {
            crate::order::lemma_map_push(out@, t, |s: String| s@);
            crate::order::lemma_map_take_push(broken@, i as int, |b: BrokenImport| broken_line(b));
        }
        out.push(t);
        i += 1;
    }
    let ghost head = texts(out@);
    assert(head == broken@.map_values(|b: BrokenImport| broken_line(b))) by {
        assert(broken@.map_values(|b: BrokenImport| broken_line(b)).take(broken@.len() as int)
            =~= broken@.map_values(|b: BrokenImport| broken_line(b)));
    }
    let mut j: usize = 0;
    while j < mismatches.len()
        invariant
            j <= mismatches@.len(),
            head == broken@.map_values(|b: BrokenImport| broken_line(b)),
            texts(out@) == head + mismatches@.map_values(|m: NameMismatch| mismatch_line(m)).take(j as int),
        decreases mismatches.len() - j,
    {
        let t = mismatch_text(&mismatches[j]);
        proof {
            crate::order::lemma_map_push(out@, t, |s: String| s@);
            crate::order::lemma_map_take_push(mismatches@, j as int, |m: NameMismatch| mismatch_line(m));
        }
        out.push(t);
        assert(texts(out@) =~= head + mismatches@.map_values(|m: NameMismatch| mismatch_line(m)).take(j + 1));
        j += 1;
    }
    assert(mismatches@.map_values(|m: NameMismatch| mismatch_line(m)).take(mismatches@.len() as int)
        =~= mismatches@.map_values(|m: NameMismatch| mismatch_line(m)));
    out
}

/// The lines an operation error is reported in on standard error: the
/// message, then the hint on its own line.
pub open spec fn error_lines_spec(message: Seq<char>, hint: Option<Seq<char>>) -> Seq<Seq<char>> {
    match hint {
        Some(h) => seq!["jmove: "@ + message, "  hint: "@ + h],
        None => seq!["jmove: "@ + message],
    }
}

/// The lines of an operation error, for standard error.
pub fn error_lines(message: &str, hint: Option<&str>) -> (r: Vec<String>)
    ensures
        texts(r@) == error_lines_spec(message@, match hint {
            Some(h) => Some(h@),
            None => None,
        }),
{
    let mut out: Vec<String> = Vec::new();
    let mut first = String::from_str("jmove: ");
    push_str(&mut first, message);
    out.push(first);
    match hint {
        Some(h) => {
            let mut second = String::from_str("  hint: ");
            push_str(&mut second, h);
            out.push(second);
        },
        None => {},
    }
    assert(texts(out@) =~= error_lines_spec(message@, match hint {
        Some(h) => Some(h@),
        None => None,
    }));
    out
}

/// The reference lines of the warning block: at most ten.
pub open spec fn ref_lines(refs: Seq<NonImportRef>) -> Seq<Seq<char>> {
    refs.take(if refs.len() < 10 { refs.len() as int } else { 10 }).map_values(
        |r: NonImportRef| "  "@ + r.file@ + ":"@ + decimal(r.line as nat),
    )
}

/// The warning block for non-import references: nothing when there are
/// none; otherwise a header with their count, the first ten as
/// `file:line`, and how many more there are.
pub open spec fn report_refs_spec(refs: Seq<NonImportRef>) -> Seq<Seq<char>> {
    if refs.len() == 0 {
        Seq::empty()
    } else {
        let n = refs.len();
        let header = "warning: "@ + decimal(n) + " non-import "@ + plural_spec(n as usize, "reference"@)
            + " to moved files may need manual fixing:"@;
        let more = if n > 10 {
            seq!["  ... and "@ + decimal((n - 10) as nat) + " more (see --json non_import_refs)"@]
        } else {
            Seq::empty()
        };
        seq![header] + ref_lines(refs) + more
    }
}

/// The lines of the warning block on non-import references, for standard
/// error after the move result.
pub fn report_refs(refs: &Vec<NonImportRef>) -> (r: Vec<String>)
    ensures
        texts(r@) == report_refs_spec(refs@),
{
    let mut out: Vec<String> = Vec::new();
    let n = refs.len();
    if n == 0 {
        assert(texts(out@) =~= report_refs_spec(refs@));
        return out;
    }
    let mut header = String::from_str("warning: ");
    push_str(&mut header, usize_text(n).as_str());
    push_str(&mut header, " non-import ");
    push_str(&mut header, plural(n, "reference").as_str());
    push_str(&mut header, " to moved files may need manual fixing:");
    out.push(header);
    let shown: usize = if n < 10 {
        n
    } else {
        10
    };
    let ghost lines = refs@.take(shown as int).map_values(|r: NonImportRef| "  "@ + r.file@ + ":"@ + decimal(r.line as nat));
    let ghost head = texts(out@);
    let mut i: usize = 0;
    while i < shown
        invariant
            shown <= refs@.len(),
            i <= shown,
            lines == refs@.take(shown as int).map_values(|r: NonImportRef| "  "@ + r.file@ + ":"@ + decimal(r.line as nat)),
            texts(out@) == head + lines.take(i as int),
        decreases shown - i,
    {
        let r = &refs[i];
        let mut t = String::from_str("  ");
        push_str(&mut t, r.file.as_str());
        push_str(&mut t, ":");
        push_str(&mut t, usize_text(r.line).as_str());
        assert(lines[i as int] == t@);
        proof {
            crate::order::lemma_map_push(out@, t, |s: String| s@);
        }
        out.push(t);
        assert(texts(out@) =~= head + lines.take(i + 1));
        i += 1;
    }
    assert(lines.take(shown as int) =~= lines);
    if n > 10 {
        let mut t = String::from_str("  ... and ");
        push_str(&mut t, usize_text(n - 10).as_str());
        push_str(&mut t, " more (see --json non_import_refs)");
        proof {
            crate::order::lemma_map_push(out@, t, |s: String| s@);
        }
        out.push(t);
    }
    assert(texts(out@) =~= report_refs_spec(refs@));
    out
}

} // verus!

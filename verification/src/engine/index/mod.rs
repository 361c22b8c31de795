//! Project index: the file set and the import graph.
//!
//! Every indexed source file is parsed through [`crate::parser`] and its
//! specifiers resolved — TS/JS relative specifiers via
//! [`crate::parser::resolve`] (bare ones through the tsconfig aliases),
//! Java FQNs via the declared package map ([`crate::parser::java`]).

pub mod scan;
pub mod files;
pub mod tsconfig;

pub use files::FileSet;
pub use tsconfig::PathAliases;

use vstd::prelude::*;

use crate::map::{has_key, TextMap};
use crate::order::{sort_stable, sorted_by, texts};
use crate::parser::java::JavaClassIndex;
use crate::parser::{ImportRecord, PackageDecl};
use crate::text::str_eq;

verus! {

/// One import occurrence plus the project file it resolves to.
/// `target: None` means "external" — a bare package specifier or a path
/// that does not exist in the index.
pub struct ResolvedImport {
    /// Raw record from the parser (specifier text + byte span).
    pub record: ImportRecord,
    /// Project-relative resolved file, if any.
    pub target: Option<String>,
}

impl Clone for ResolvedImport {
    fn clone(&self) -> (r: Self)
        ensures
            r.record.specifier@ == self.record.specifier@,
            r.record.span == self.record.span,
            r.record.is_dynamic == self.record.is_dynamic,
            r.target == self.target,
    {
        ResolvedImport { record: self.record.clone(), target: self.target.clone() }
    }
}

/// The edge resolves to the file `t`.
pub open spec fn targets_file(e: ResolvedImport, t: Seq<char>) -> bool {
    e.target matches Some(x) && x@ == t
}

/// Some edge of `es` resolves to `t`.
pub open spec fn imports_file(es: Seq<ResolvedImport>, t: Seq<char>) -> bool {
    exists|i: int| 0 <= i < es.len() && #[trigger] targets_file(es[i], t)
}

/// Every file whose imports resolve to `t`.
pub open spec fn importers(imports: Map<Seq<char>, Vec<ResolvedImport>>, t: Seq<char>) -> Set<Seq<char>> {
    Set::new(|f: Seq<char>| imports.contains_key(f) && imports_file(imports[f]@, t))
}

/// Full in-memory project index: file set and forward import edges.
pub struct Index {
    /// Absolute project root the index was built for.
    pub root: String,
    /// All indexed source files.
    pub files: FileSet,
    /// For each file, the imports it declares (in source order).
    pub imports: TextMap<Vec<ResolvedImport>>,
    /// Declared `package` of each Java file that has one.
    pub packages: TextMap<PackageDecl>,
    /// FQN → file map for every indexed Java class; the fix rules use it
    /// for candidate lookup (empty when the project has no Java sources).
    pub java_classes: JavaClassIndex,
    /// tsconfig path aliases for bare TS specifiers.
    pub aliases: PathAliases,
}

impl Default for Index {
    fn default() -> (r: Self)
        ensures
            r.root@ == Seq::<char>::empty(),
            r.files@ == Set::<Seq<char>>::empty(),
            r.imports@ == Map::<Seq<char>, Vec<ResolvedImport>>::empty(),
            r.packages@ == Map::<Seq<char>, PackageDecl>::empty(),
            r.java_classes.classes_view() == Map::<Seq<char>, Seq<char>>::empty(),
            r.aliases@ == Seq::<tsconfig::AliasView>::empty(),
    {
        Index {
            root: String::new(),
            files: FileSet::new(),
            imports: TextMap::new(),
            packages: TextMap::new(),
            java_classes: JavaClassIndex::empty(),
            aliases: PathAliases::new(),
        }
    }
}

/// Whether some edge of `edges` resolves to `target`.
pub fn any_edge_to(edges: &Vec<ResolvedImport>, target: &str) -> (r: bool)
    ensures
        r == imports_file(edges@, target@),
{
    let mut i: usize = 0;
    while i < edges.len()
        invariant
            i <= edges@.len(),
            forall|j: int| 0 <= j < i ==> !#[trigger] targets_file(edges@[j], target@),
        decreases edges.len() - i,
    {
        match &edges[i].target {
            Some(t) => {
                if str_eq(t.as_str(), target) {
                    assert(targets_file(edges@[i as int], target@));
                    return true;
                }
            },
            None => {},
        }
        i += 1;
    }
    false
}

impl Index {
    /// Reverse edge lookup: every indexed file that imports `target`, each
    /// once, in path order.
    pub fn importers_of(&self, target: &str) -> (r: Vec<String>)
        ensures
            texts(r@).to_set() == importers(self.imports@, target@),
            texts(r@).no_duplicates(),
            sorted_by(r@),
    {
        self.imports.view_facts();
        let entries = self.imports.entries();
        let ghost e = entries@;
        let mut found: Vec<String> = Vec::new();
        let mut i: usize = 0;
        while i < entries.len()
            invariant
                i <= e.len(),
                e == entries@,
                e == self.imports.entries_spec(),
                crate::map::keys_distinct(e),
                forall|k: int| 0 <= k < e.len() ==> #[trigger] self.imports@.contains_key(e[k].0@)
                    && self.imports@[e[k].0@] == e[k].1,
                forall|f: Seq<char>| #[trigger] self.imports@.contains_key(f) <==> has_key(e, f),
                texts(found@).no_duplicates(),
                forall|f: Seq<char>| #[trigger] texts(found@).contains(f) <==> exists|k: int|
                    0 <= k < i && e[k].0@ == f && imports_file(e[k].1@, target@),
            decreases e.len() - i,
        {
            if any_edge_to(&entries[i].1, target) {
                let ghost before = texts(found@);
                assert(!before.contains(e[i as int].0@)) by {
                    if before.contains(e[i as int].0@) {
                        let k = choose|k: int| 0 <= k < i && e[k].0@ == e[i as int].0@ && imports_file(e[k].1@, target@);
                    }
                }
                found.push(entries[i].0.clone());
                assert(texts(found@) =~= before.push(e[i as int].0@));
                assert forall|f: Seq<char>| #[trigger] texts(found@).contains(f) <==> exists|k: int|
                    0 <= k < i + 1 && e[k].0@ == f && imports_file(e[k].1@, target@) by {
                    if texts(found@).contains(f) && f != e[i as int].0@ {
                        let j = choose|j: int| 0 <= j < texts(found@).len() && texts(found@)[j] == f;
                        assert(before[j] == f);
                        assert(before.contains(f));
                    }
                    if f == e[i as int].0@ {
                        assert(texts(found@)[before.len() as int] == f);
                        assert(imports_file(e[i as int].1@, target@));
                        assert(0 <= i < i + 1 && e[i as int].0@ == f && imports_file(e[i as int].1@, target@));
                    }
                    if exists|k: int| 0 <= k < i && e[k].0@ == f && imports_file(e[k].1@, target@) {
                        assert(before.contains(f));
                        let j = choose|j: int| 0 <= j < before.len() && before[j] == f;
                        assert(texts(found@)[j] == f);
                    }
                }
            } else {
                assert forall|f: Seq<char>| #[trigger] texts(found@).contains(f) <==> exists|k: int|
                    0 <= k < i + 1 && e[k].0@ == f && imports_file(e[k].1@, target@) by {
                    if exists|k: int| 0 <= k < i + 1 && e[k].0@ == f && imports_file(e[k].1@, target@) {
                        let k = choose|k: int| 0 <= k < i + 1 && e[k].0@ == f && imports_file(e[k].1@, target@);
                        assert(k != i);
                    }
                }
            }
            i += 1;
        }
        let ghost unsorted = found@;
        let r = sort_stable(found);
        proof {
            crate::order::lemma_map_multiset(r@, unsorted, |s: String| s@);
            crate::parser::java::lemma_multiset_same_set(texts(r@), texts(unsorted));
            assert forall|f: Seq<char>| texts(r@).to_set().contains(f) <==> importers(self.imports@, target@).contains(f) by {
                assert(texts(r@).to_set().contains(f) == texts(unsorted).contains(f));
                if importers(self.imports@, target@).contains(f) {
                    let k = choose|k: int| 0 <= k < e.len() && #[trigger] e[k].0@ == f;
                }
            }
            assert(texts(r@).to_set() =~= importers(self.imports@, target@));
        }
        r
    }
}

} // verus!

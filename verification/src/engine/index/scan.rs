//! Building the index from the project's source files: parse each file
//! with its frontend, then resolve every specifier against the complete
//! file set (TS/JS relative specifiers through module resolution, bare
//! ones through the tsconfig aliases, Java FQNs through the class index).
//! Discovering and reading the files is the caller's part: it hands over
//! `(project-relative path, text)` pairs in discovery order.

use vstd::prelude::*;

use crate::engine::index::tsconfig::{resolve_alias, AliasView};
use crate::engine::index::{FileSet, Index, PathAliases, ResolvedImport};
use crate::map::TextMap;
use crate::order::texts;
use crate::parser::java::extract::package_view;
use crate::parser::java::{class_index_of, resolve_spec, JavaClassIndex};
use crate::parser::resolve::{resolve_module, resolve_module_spec};
use crate::parser::{frontend_for, frontend_package, frontend_records, language_of_path, record_view, record_views, ImportRecord, Language, PackageDecl, RecordView, SourceLanguage};
use crate::path::{comp_views, comps, comps_prefix, components, components_prefix, normalized, Component};

verus! {

/// A source file as the contracts see it: path and text.
pub type SourceView = (Seq<char>, Seq<char>);

/// The views of the source files handed to the build.
pub open spec fn source_views(s: Seq<(String, String)>) -> Seq<SourceView> {
    s.map_values(|p: (String, String)| (p.0@, p.1@))
}

/// Every source path is normalized, as discovery makes them.
pub open spec fn normalized_sources(sv: Seq<SourceView>) -> bool {
    forall|i: int| 0 <= i < sv.len() ==> normalized(#[trigger] sv[i].0) == Some(sv[i].0)
}

/// Index of the last of the first `n` sources with path `f` (`-1` if none):
/// a path given twice is indexed with its last text.
pub open spec fn last_source(sv: Seq<SourceView>, f: Seq<char>, n: int) -> int
    decreases n,
{
    if n <= 0 {
        -1
    } else if sv[n - 1].0 == f {
        n - 1
    } else {
        last_source(sv, f, n - 1)
    }
}

/// The text indexed for `f`.
pub open spec fn text_of(sv: Seq<SourceView>, f: Seq<char>) -> Seq<char> {
    sv[last_source(sv, f, sv.len() as int)].1
}

/// `f` lies under the scope directory (everything does without a scope).
pub open spec fn in_scope(scope: Option<Seq<char>>, f: Seq<char>) -> bool {
    match scope {
        None => true,
        Some(s) => comps_prefix(comps(s), comps(f)),
    }
}

/// `f` is indexed when given: a supported language, inside the scope.
pub open spec fn kept(scope: Option<Seq<char>>, f: Seq<char>) -> bool {
    language_of_path(f) is Some && in_scope(scope, f)
}

/// The file a specifier written in `importer` resolves to: Java FQNs
/// through the class index; TS/JS through module resolution, and bare
/// specifiers that it leaves unresolved through the aliases.
pub open spec fn target_spec(
    classes: Map<Seq<char>, Seq<char>>,
    files: Set<Seq<char>>,
    aliases: Seq<AliasView>,
    importer: Seq<char>,
    specifier: Seq<char>,
) -> Option<Seq<char>> {
    if language_of_path(importer) == Some(SourceLanguage::Java) {
        resolve_spec(classes, specifier)
    } else {
        match resolve_module_spec(importer, specifier, files) {
            Some(t) => Some(t),
            None => resolve_alias(aliases, specifier, files),
        }
    }
}

/// The view of an optional target.
pub open spec fn target_view(t: Option<String>) -> Option<Seq<char>> {
    match t {
        Some(s) => Some(s@),
        None => None,
    }
}

/// The edges of `importer` are its records, in order, each resolved.
pub open spec fn edges_ok(
    es: Seq<ResolvedImport>,
    recs: Seq<RecordView>,
    classes: Map<Seq<char>, Seq<char>>,
    files: Set<Seq<char>>,
    aliases: Seq<AliasView>,
    importer: Seq<char>,
) -> bool {
    &&& es.len() == recs.len()
    &&& forall|k: int| 0 <= k < es.len() ==> record_view(#[trigger] es[k].record) == recs[k]
        && target_view(es[k].target) == target_spec(classes, files, aliases, importer, es[k].record.specifier@)
}

/// `r` is the index of the sources `sv` under `root`, restricted to
/// `scope`, with the alias table `aliases`.
pub open spec fn built(r: Index, root: Seq<char>, sv: Seq<SourceView>, scope: Option<Seq<char>>, aliases: Seq<AliasView>) -> bool {
    &&& r.root@ == root
    &&& r.aliases@ == aliases
    &&& forall|f: Seq<char>| #[trigger] r.files@.contains(f) <==> (last_source(sv, f, sv.len() as int) >= 0 && kept(scope, f))
    &&& forall|f: Seq<char>| #[trigger] r.imports@.contains_key(f) <==> r.files@.contains(f)
    &&& forall|f: Seq<char>| #[trigger] r.files@.contains(f) ==> edges_ok(
        r.imports@[f]@,
        frontend_records(language_of_path(f)->0, text_of(sv, f)),
        r.java_classes.classes_view(),
        r.files@,
        r.aliases@,
        f,
    )
    &&& forall|f: Seq<char>| #[trigger] r.packages@.contains_key(f) <==> r.files@.contains(f)
        && frontend_package(language_of_path(f)->0, text_of(sv, f)) is Some
    &&& forall|f: Seq<char>| #[trigger] r.packages@.contains_key(f) ==> package_view(Some(r.packages@[f]))
        == frontend_package(language_of_path(f)->0, text_of(sv, f))
    &&& class_index_of(r.java_classes.classes_view(), r.files@, r.packages@)
}

/// What the first pass has gathered after `n` sources.
pub open spec fn staged_ok(
    files: Set<Seq<char>>,
    packages: Map<Seq<char>, PackageDecl>,
    staged: Map<Seq<char>, Vec<ImportRecord>>,
    sv: Seq<SourceView>,
    scope: Option<Seq<char>>,
    n: int,
) -> bool {
    &&& forall|f: Seq<char>| #[trigger] files.contains(f) <==> (last_source(sv, f, n) >= 0 && kept(scope, f))
    &&& forall|f: Seq<char>| #[trigger] staged.contains_key(f) <==> files.contains(f)
    &&& forall|f: Seq<char>| #[trigger] staged.contains_key(f) ==> record_views(staged[f]@)
        == frontend_records(language_of_path(f)->0, sv[last_source(sv, f, n)].1)
    &&& forall|f: Seq<char>| #[trigger] packages.contains_key(f) <==> files.contains(f)
        && frontend_package(language_of_path(f)->0, sv[last_source(sv, f, n)].1) is Some
    &&& forall|f: Seq<char>| #[trigger] packages.contains_key(f) ==> package_view(Some(packages[f]))
        == frontend_package(language_of_path(f)->0, sv[last_source(sv, f, n)].1)
}

// `rel` lies under the scope components.
fn under(scope: &Option<Vec<Component>>, rel: &str) -> (r: bool)
    ensures
        r == match scope {
            None => true,
            Some(s) => comps_prefix(comp_views(s@), comps(rel@)),
        },
{
    match scope {
        None => true,
        Some(s) => {
            let cs = components(rel);
            components_prefix(s.as_slice(), cs.as_slice())
        },
    }
}

// The first pass: parse every kept source with its frontend.
fn stage(sources: &Vec<(String, String)>, scope: Option<&str>) -> (r: (FileSet, TextMap<PackageDecl>, TextMap<Vec<ImportRecord>>))
    requires
        normalized_sources(source_views(sources@)),
    ensures
        staged_ok(r.0@, r.1@, r.2@, source_views(sources@), scope_view(scope), sources@.len() as int),
{
    let ghost sv = source_views(sources@);
    let ghost sc = scope_view(scope);
    let scope_cs: Option<Vec<Component>> = match scope {
        Some(s) => Some(components(s)),
        None => None,
    };
    let mut files = FileSet::new();
    let mut packages: TextMap<PackageDecl> = TextMap::new();
    let mut staged: TextMap<Vec<ImportRecord>> = TextMap::new();
    let mut i: usize = 0;
    while i < sources.len()
        invariant
            sv == source_views(sources@),
            normalized_sources(sv),
            sc == scope_view(scope),
            scope_cs matches Some(c) ==> sc matches Some(s) && comp_views(c@) == comps(s),
            scope_cs is None ==> sc is None,
            i <= sources@.len(),
            staged_ok(files@, packages@, staged@, sv, sc, i as int),
        decreases sources.len() - i,
    {
        let rel = &sources[i].0;
        let text = &sources[i].1;
        assert(sv[i as int] == (rel@, text@));
        proof {
            assert forall|f: Seq<char>| f != rel@ implies last_source(sv, f, i + 1) == #[trigger] last_source(sv, f, i as int) by {}
            assert(last_source(sv, rel@, i + 1) == i);
        }
        let lang = match SourceLanguage::for_path(rel.as_str()) {
            Some(l) => l,
            None => {
                i += 1;
                continue;
            },
        };
        if !under(&scope_cs, rel.as_str()) {
            i += 1;
            continue;
        }
        let frontend = frontend_for(lang);
        let records = frontend.extract_imports(text.as_str());
        assert(normalized(sv[i as int].0) == Some(sv[i as int].0));
        files.add(rel.clone());
        match frontend.extract_package(text.as_str()) {
            Some(d) => {
                packages.insert(rel.clone(), d);
            },
            None => {
                packages.remove(rel.as_str());
            },
        }
        staged.insert(rel.clone(), records);
        i += 1;
    }
    (files, packages, staged)
}

/// The scope as text.
pub open spec fn scope_view(scope: Option<&str>) -> Option<Seq<char>> {
    match scope {
        Some(s) => Some(s@),
        None => None,
    }
}

/// Where the specifier of a record written in `importer` leads (see
/// [`target_spec`]).
pub fn resolve_target(
    classes: &JavaClassIndex,
    files: &FileSet,
    aliases: &PathAliases,
    importer: &str,
    specifier: &str,
) -> (r: Option<String>)
    ensures
        target_view(r) == target_spec(classes.classes_view(), files@, aliases@, importer@, specifier@),
{
    if SourceLanguage::for_path(importer) == Some(SourceLanguage::Java) {
        classes.resolve(specifier)
    } else {
        match resolve_module(importer, specifier, files) {
            Some(t) => Some(t),
            None => aliases.resolve(specifier, files),
        }
    }
}

// The resolved edges of one file.
fn resolve_edges(
    classes: &JavaClassIndex,
    files: &FileSet,
    aliases: &PathAliases,
    importer: &str,
    records: &Vec<ImportRecord>,
) -> (r: Vec<ResolvedImport>)
    ensures
        edges_ok(r@, record_views(records@), classes.classes_view(), files@, aliases@, importer@),
{
    let mut out: Vec<ResolvedImport> = Vec::new();
    let mut k: usize = 0;
    while k < records.len()
        invariant
            k <= records@.len(),
            out@.len() == k,
            forall|j: int| 0 <= j < k ==> record_view(#[trigger] out@[j].record) == record_view(records@[j])
                && target_view(out@[j].target) == target_spec(classes.classes_view(), files@, aliases@, importer@, out@[j].record.specifier@),
        decreases records.len() - k,
    {
        let rec = records[k].clone();
        let target = resolve_target(classes, files, aliases, importer, rec.specifier.as_str());
        out.push(ResolvedImport { record: rec, target });
        k += 1;
    }
    out
}

impl Index {
    /// Index `sources` (normalized project-relative path and text, in
    /// discovery order; a path given twice keeps its last text) under `root`, keeping
    /// only files with a supported language inside `source_root` when one
    /// is given: the escape hatch for monorepos whose copies declare the
    /// same Java classes. Every file is parsed with its frontend; the
    /// specifiers are resolved once the whole file set and package map
    /// are known.
    pub fn build_scoped(root: String, sources: &Vec<(String, String)>, source_root: Option<&str>, aliases: PathAliases) -> (r: Index)
        requires
            normalized_sources(source_views(sources@)),
        ensures
            built(r, root@, source_views(sources@), scope_view(source_root), aliases@),
    {
        let ghost sv = source_views(sources@);
        let (files, packages, staged) = stage(sources, source_root);
        let classes = JavaClassIndex::new(&files, &packages);
        let order = files.sorted();
        let ghost ov = texts(order@);
        assert(ov == crate::engine::index::files::string_views(order@));
        let mut imports: TextMap<Vec<ResolvedImport>> = TextMap::new();
        let mut k: usize = 0;
        while k < order.len()
            invariant
                ov == texts(order@),
                ov.to_set() == files@,
                ov.no_duplicates(),
                k <= order@.len(),
                staged_ok(files@, packages@, staged@, sv, scope_view(source_root), sv.len() as int),
                forall|f: Seq<char>| #[trigger] imports@.contains_key(f) <==> ov.take(k as int).contains(f),
                forall|f: Seq<char>| #[trigger] imports@.contains_key(f) ==> edges_ok(
                    imports@[f]@,
                    frontend_records(language_of_path(f)->0, sv[last_source(sv, f, sv.len() as int)].1),
                    classes.classes_view(),
                    files@,
                    aliases@,
                    f,
                ),
            decreases order.len() - k,
        {
            let f = &order[k];
            assert(ov[k as int] == f@);
            assert(files@.contains(f@));
            let edges = match staged.get(f.as_str()) {
                Some(rs) => resolve_edges(&classes, &files, &aliases, f.as_str(), rs),
                None => {
                    assert(false);
                    Vec::new()
                },
            };
            imports.insert(f.clone(), edges);
            proof {
                let t1 = ov.take(k + 1);
                let t0 = ov.take(k as int);
                assert forall|g: Seq<char>| t1.contains(g) <==> t0.contains(g) || g == f@ by {
                    if t1.contains(g) && g != f@ {
                        let j = choose|j: int| 0 <= j < t1.len() && t1[j] == g;
                        assert(t0[j] == g);
                    }
                    if t0.contains(g) {
                        let j = choose|j: int| 0 <= j < t0.len() && t0[j] == g;
                        assert(t1[j] == g);
                    }
                    if g == f@ {
                        assert(t1[k as int] == g);
                    }
                }
            }
            k += 1;
        }
        proof {
            assert(ov.take(order@.len() as int) =~= ov);
            assert forall|f: Seq<char>| #[trigger] imports@.contains_key(f) <==> files@.contains(f) by {
                assert(ov.to_set().contains(f) == ov.contains(f));
            }
        }
        let r = Index { root, files, imports, packages, java_classes: classes, aliases };
        assert(forall|f: Seq<char>| #[trigger] r.files@.contains(f) ==> r.imports@.contains_key(f));
        r
    }

    /// Index all of `sources` under `root` (see [`Index::build_scoped`]).
    pub fn build(root: String, sources: &Vec<(String, String)>, aliases: PathAliases) -> (r: Index)
        requires
            normalized_sources(source_views(sources@)),
        ensures
            built(r, root@, source_views(sources@), None, aliases@),
    {
        Index::build_scoped(root, sources, None, aliases)
    }
}

} // verus!

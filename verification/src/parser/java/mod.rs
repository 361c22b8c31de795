//! Java frontend: fully-qualified-name (FQN) resolution through the class
//! index.
//!
//! Java specifiers are absolute FQNs (`com.example.utils.Parser`), resolved
//! through a class index built from the declared packages of all indexed
//! files — never through path arithmetic.

use vstd::prelude::*;

pub mod class_name;
pub mod extract;
pub mod rules;

pub use extract::TreeSitterJava;

use crate::engine::index::FileSet;
use crate::engine::plan::specifier::{last_index_of, lemma_last_index_of};
use crate::map::TextMap;
use crate::order::{path_lt, sort_texts, sorted_by, text_sorted, texts, TotalPreorder};
use crate::parser::PackageDecl;
use crate::path::{file_stem, file_stem_of};
use crate::text::{chars_of, chars_slice, push_str, rfind_char, string_of};

verus! {

/// The FQN a file declares: `<package>.<file stem>`, when it has both.
pub open spec fn class_fqn(pkgs: Map<Seq<char>, PackageDecl>, f: Seq<char>) -> Option<Seq<char>> {
    if pkgs.contains_key(f) && file_stem_of(f) is Some {
        Some(pkgs[f].name@ + "."@ + file_stem_of(f)->0)
    } else {
        None
    }
}

/// `m` maps exactly the FQNs the files declare, each to the first file in
/// path order that declares it.
pub open spec fn class_index_of(m: Map<Seq<char>, Seq<char>>, files: Set<Seq<char>>, pkgs: Map<Seq<char>, PackageDecl>) -> bool {
    &&& forall|q: Seq<char>| #[trigger] m.contains_key(q) <==> exists|f: Seq<char>|
        files.contains(f) && class_fqn(pkgs, f) == Some(q)
    &&& forall|q: Seq<char>| #[trigger] m.contains_key(q) ==> {
        &&& files.contains(m[q])
        &&& class_fqn(pkgs, m[q]) == Some(q)
        &&& forall|f: Seq<char>| files.contains(f) && class_fqn(pkgs, f) == Some(q) ==> !path_lt(f, m[q])
    }
}

/// The simple name of an FQN: its text after the last `.`.
pub open spec fn simple_name(fqn: Seq<char>) -> Seq<char> {
    match last_index_of(fqn, '.') {
        Some(k) => fqn.subrange(k + 1, fqn.len() as int),
        None => fqn,
    }
}

/// The FQN with its last segment dropped, if it has a `.`.
pub open spec fn owner_name(fqn: Seq<char>) -> Option<Seq<char>> {
    match last_index_of(fqn, '.') {
        Some(k) => Some(fqn.subrange(0, k)),
        None => None,
    }
}

/// Map from every indexed Java class's declared FQN to its file, plus the
/// FQNs grouped by simple name. A file without a `package` declaration
/// lives in the default package, which is un-importable, so it gets no
/// entry. Collisions (two files declaring the same FQN — a broken
/// project) keep the first path in path order.
pub struct JavaClassIndex {
    classes: TextMap<String>,
    by_simple: TextMap<Vec<String>>,
}

impl JavaClassIndex {
    /// FQN → file.
    pub closed spec fn classes_view(&self) -> Map<Seq<char>, Seq<char>> {
        self.classes@.map_values(|s: String| s@)
    }

    /// The FQNs in the index with simple name `simple`.
    pub open spec fn named(&self, simple: Seq<char>) -> Set<Seq<char>> {
        Set::new(|f: Seq<char>| self.classes_view().contains_key(f) && simple_name(f) == simple)
    }

    #[verifier::type_invariant]
    closed spec fn wf(&self) -> bool {
        &&& forall|s: Seq<char>| #[trigger] self.by_simple@.contains_key(s) ==> {
            &&& texts(self.by_simple@[s]@).no_duplicates()
            &&& text_sorted(texts(self.by_simple@[s]@))
            &&& texts(self.by_simple@[s]@).to_set() == self.named(s)
        }
        &&& forall|f: Seq<char>| #[trigger] self.classes@.contains_key(f) ==> self.by_simple@.contains_key(simple_name(f))
    }

    /// The FQNs with simple name `simple`, as [`JavaClassIndex::candidates`]
    /// lists them.
    pub closed spec fn candidates_spec(&self, simple: Seq<char>) -> Seq<Seq<char>> {
        if self.by_simple@.contains_key(simple) {
            texts(self.by_simple@[simple]@)
        } else {
            Seq::empty()
        }
    }

    /// Number of indexed classes.
    pub fn len(&self) -> (r: usize)
        ensures
            r == self.classes_view().dom().len(),
    {
        assert(self.classes_view().dom() =~= self.classes@.dom());
        self.classes.len()
    }

    /// An empty index.
    pub fn empty() -> (r: Self)
        ensures
            r.classes_view() == Map::<Seq<char>, Seq<char>>::empty(),
    {
        let r = JavaClassIndex { classes: TextMap::new(), by_simple: TextMap::new() };
        assert(r.classes_view() =~= Map::<Seq<char>, Seq<char>>::empty());
        r
    }

    /// Build the index from the scanned files and their package
    /// declarations: every file with a package and a stem contributes its
    /// FQN, the first such file in path order wins a collision.
    pub fn new(files: &FileSet, packages: &TextMap<PackageDecl>) -> (r: Self)
        ensures
            class_index_of(r.classes_view(), files@, packages@),
    {
        let sorted = files.sorted();
        let ghost sv = texts(sorted@);
        assert(texts(sorted@) == crate::engine::index::files::string_views(sorted@));
        let mut classes: TextMap<String> = TextMap::new();
        let mut i: usize = 0;
        while i < sorted.len()
            invariant
                i <= sorted@.len(),
                sv == texts(sorted@),
                sv.to_set() == files@,
                sorted_by(sorted@),
                forall|q: Seq<char>| #[trigger] classes@.contains_key(q) ==> exists|k: int|
                    0 <= k < i && classes@[q]@ == sv[k] && class_fqn(packages@, sv[k]) == Some(q)
                    && forall|j: int| 0 <= j < k ==> class_fqn(packages@, #[trigger] sv[j]) != Some(q),
                forall|k: int| 0 <= k < i && #[trigger] class_fqn(packages@, sv[k]) is Some
                    ==> classes@.contains_key(class_fqn(packages@, sv[k])->0),
            decreases sorted.len() - i,
        {
            let file = &sorted[i];
            assert(sv[i as int] == file@);
            match packages.get(file.as_str()) {
                None => {
                    assert(class_fqn(packages@, sv[i as int]) is None);
                },
                Some(decl) => match file_stem(file.as_str()) {
                    None => {
                        assert(class_fqn(packages@, sv[i as int]) is None);
                    },
                    Some(stem) => {
                        let mut fqn = decl.name.clone();
                        push_str(&mut fqn, ".");
                        let stem_text = string_of(stem.as_slice());
                        push_str(&mut fqn, stem_text.as_str());
                        proof {
                            reveal_strlit(".");
                        }
                        assert(class_fqn(packages@, sv[i as int]) == Some(fqn@));
                        if !classes.contains_key(fqn.as_str()) {
                            let ghost before = classes@;
                            classes.insert(fqn, file.clone());
                            proof {
                                assert forall|q: Seq<char>| #[trigger] classes@.contains_key(q) implies exists|k: int|
                                    0 <= k < i + 1 && classes@[q]@ == sv[k] && class_fqn(packages@, sv[k]) == Some(q)
                                    && forall|j: int| 0 <= j < k ==> class_fqn(packages@, #[trigger] sv[j]) != Some(q) by {
                                    if q == class_fqn(packages@, sv[i as int])->0 {
                                        assert forall|j: int| 0 <= j < i implies class_fqn(packages@, #[trigger] sv[j]) != Some(q) by {
                                            if class_fqn(packages@, sv[j]) == Some(q) {
                                                assert(before.contains_key(q));
                                            }
                                        }
                                    } else {
                                        assert(before.contains_key(q));
                                    }
                                }
                            }
                        }
                    },
                },
            }
            i += 1;
        }
        let ghost cl = classes@;
        let by_simple = Self::group_by_simple(&classes);
        proof {
            let cv = classes@.map_values(|s: String| s@);
            assert forall|t: Seq<char>| #[trigger] by_simple@.contains_key(t) implies
                Set::new(|f: Seq<char>| classes@.contains_key(f) && simple_name(f) == t)
                == Set::new(|f: Seq<char>| cv.contains_key(f) && simple_name(f) == t) by {
                assert(Set::new(|f: Seq<char>| classes@.contains_key(f) && simple_name(f) == t)
                    =~= Set::new(|f: Seq<char>| cv.contains_key(f) && simple_name(f) == t));
            }
        }
        let r = JavaClassIndex { classes, by_simple };
        proof {
            assert forall|q: Seq<char>| #[trigger] r.classes_view().contains_key(q) <==> exists|f: Seq<char>|
                files@.contains(f) && class_fqn(packages@, f) == Some(q) by {
                if exists|f: Seq<char>| files@.contains(f) && class_fqn(packages@, f) == Some(q) {
                    let f = choose|f: Seq<char>| files@.contains(f) && class_fqn(packages@, f) == Some(q);
                    assert(sv.contains(f));
                    let k = choose|k: int| 0 <= k < sv.len() && sv[k] == f;
                    assert(class_fqn(packages@, sv[k]) is Some);
                }
                if r.classes_view().contains_key(q) {
                    let k = choose|k: int| 0 <= k < i && cl[q]@ == sv[k] && class_fqn(packages@, sv[k]) == Some(q)
                        && forall|j: int| 0 <= j < k ==> class_fqn(packages@, #[trigger] sv[j]) != Some(q);
                    assert(sv.to_set().contains(sv[k]));
                }
            }
            assert forall|q: Seq<char>| #[trigger] r.classes_view().contains_key(q) implies {
                &&& files@.contains(r.classes_view()[q])
                &&& class_fqn(packages@, r.classes_view()[q]) == Some(q)
                &&& forall|f: Seq<char>| files@.contains(f) && class_fqn(packages@, f) == Some(q)
                    ==> !path_lt(f, r.classes_view()[q])
            } by {
                let k = choose|k: int| 0 <= k < i && cl[q]@ == sv[k] && class_fqn(packages@, sv[k]) == Some(q)
                    && forall|j: int| 0 <= j < k ==> class_fqn(packages@, #[trigger] sv[j]) != Some(q);
                assert(r.classes_view()[q] == sv[k]);
                assert(sv.to_set().contains(sv[k]));
                assert forall|f: Seq<char>| files@.contains(f) && class_fqn(packages@, f) == Some(q)
                    implies !path_lt(f, r.classes_view()[q]) by {
                    assert(sv.contains(f));
                    let m = choose|m: int| 0 <= m < sv.len() && sv[m] == f;
                    if m < k {
                        assert(class_fqn(packages@, sv[m]) != Some(q));
                    } else if m > k {
                        assert(sorted@[k].le_spec(&sorted@[m]));
                    } else {
                        crate::order::lemma_path_order(f, f, f);
                    }
                }
            }
        }
        r
    }

    // The simple-name table of `classes`: each simple name with its FQNs
    // in text order.
    fn group_by_simple(classes: &TextMap<String>) -> (r: TextMap<Vec<String>>)
        ensures
            forall|s: Seq<char>| #[trigger] r@.contains_key(s) ==> {
                &&& texts(r@[s]@).no_duplicates()
                &&& text_sorted(texts(r@[s]@))
                &&& texts(r@[s]@).to_set() == Set::new(|f: Seq<char>| classes@.contains_key(f) && simple_name(f) == s)
            },
            forall|f: Seq<char>| #[trigger] classes@.contains_key(f) ==> r@.contains_key(simple_name(f)),
    {
        classes.view_facts();
        let entries = classes.entries();
        let ghost e = entries@;
        let mut groups: TextMap<Vec<String>> = TextMap::new();
        let mut i: usize = 0;
        while i < entries.len()
            invariant
                i <= e.len(),
                e == entries@,
                e == classes.entries_spec(),
                crate::map::keys_distinct(e),
                forall|k: int| 0 <= k < e.len() ==> #[trigger] classes@.contains_key(e[k].0@),
                forall|f: Seq<char>| #[trigger] classes@.contains_key(f) <==> crate::map::has_key(e, f),
                forall|s: Seq<char>| #[trigger] groups@.contains_key(s) ==> {
                    &&& texts(groups@[s]@).no_duplicates()
                    &&& texts(groups@[s]@).to_set() == Set::new(|f: Seq<char>| exists|k: int|
                        0 <= k < i && e[k].0@ == f && simple_name(f) == s)
                },
                forall|k: int| 0 <= k < i ==> #[trigger] groups@.contains_key(simple_name(e[k].0@)),
            decreases e.len() - i,
        {
            let fqn = &entries[i].0;
            let simple = simple_of(fqn.as_str());
            let ghost s = simple@;
            let ghost before = groups@;
            let mut list: Vec<String> = match groups.remove(simple.as_str()) {
                Some(v) => v,
                None => Vec::new(),
            };
            let ghost old_list = list@;
            assert(!texts(old_list).contains(fqn@)) by {
                if texts(old_list).contains(fqn@) {
                    let j = choose|j: int| 0 <= j < texts(old_list).len() && texts(old_list)[j] == fqn@;
                    assert(texts(old_list).to_set().contains(fqn@));
                    let k = choose|k: int| 0 <= k < i && e[k].0@ == fqn@ && simple_name(fqn@) == s;
                    assert(e[k].0@ == e[i as int].0@);
                }
            }
            list.push(fqn.clone());
            assert(texts(list@) =~= texts(old_list).push(fqn@));
            groups.insert(simple, list);
            proof {
                assert forall|t: Seq<char>| #[trigger] groups@.contains_key(t) implies {
                    &&& texts(groups@[t]@).no_duplicates()
                    &&& texts(groups@[t]@).to_set() == Set::new(|f: Seq<char>| exists|k: int|
                        0 <= k < i + 1 && e[k].0@ == f && simple_name(f) == t)
                } by {
                    if t == s {
                        assert(texts(groups@[t]@) == texts(old_list).push(fqn@));
                        if before.contains_key(s) {
                            assert(texts(old_list).to_set() == Set::new(|f: Seq<char>| exists|k: int|
                                0 <= k < i && e[k].0@ == f && simple_name(f) == s));
                        } else {
                            assert(texts(old_list) =~= Seq::<Seq<char>>::empty());
                            assert forall|k: int| 0 <= k < i implies simple_name(#[trigger] e[k].0@) != s by {
                                assert(before.contains_key(simple_name(e[k].0@)));
                            }
                        }
                        assert forall|f: Seq<char>| #[trigger] texts(groups@[t]@).to_set().contains(f) <==> exists|k: int|
                            0 <= k < i + 1 && e[k].0@ == f && simple_name(f) == t by {
                            if texts(groups@[t]@).to_set().contains(f) {
                                let j = choose|j: int| 0 <= j < texts(groups@[t]@).len() && texts(groups@[t]@)[j] == f;
                                if j < texts(old_list).len() {
                                    assert(texts(old_list)[j] == f);
                                    assert(texts(old_list).to_set().contains(f));
                                } else {
                                    assert(e[i as int].0@ == f);
                                }
                            }
                            if exists|k: int| 0 <= k < i + 1 && e[k].0@ == f && simple_name(f) == t {
                                let k = choose|k: int| 0 <= k < i + 1 && e[k].0@ == f && simple_name(f) == t;
                                if k < i {
                                    assert(texts(old_list).to_set().contains(f));
                                    let j = choose|j: int| 0 <= j < texts(old_list).len() && texts(old_list)[j] == f;
                                    assert(texts(groups@[t]@)[j] == f);
                                } else {
                                    assert(texts(groups@[t]@)[texts(old_list).len() as int] == f);
                                }
                            }
                        }
                        assert(texts(groups@[t]@).to_set() =~= Set::new(|f: Seq<char>| exists|k: int|
                            0 <= k < i + 1 && e[k].0@ == f && simple_name(f) == t));
                    } else {
                        assert(before.contains_key(t));
                        assert(texts(groups@[t]@).to_set() =~= Set::new(|f: Seq<char>| exists|k: int|
                            0 <= k < i + 1 && e[k].0@ == f && simple_name(f) == t));
                    }
                }
            }
            i += 1;
        }
        // Sort each group.
        let keys_entries = groups.entries();
        let ghost ge = keys_entries@;
        let mut out: TextMap<Vec<String>> = TextMap::new();
        let mut j: usize = 0;
        while j < keys_entries.len()
            invariant
                j <= ge.len(),
                ge == keys_entries@,
                ge == groups.entries_spec(),
                crate::map::keys_distinct(ge),
                forall|k: int| 0 <= k < ge.len() ==> #[trigger] groups@.contains_key(ge[k].0@) && groups@[ge[k].0@] == ge[k].1,
                forall|t: Seq<char>| #[trigger] groups@.contains_key(t) <==> crate::map::has_key(ge, t),
                forall|t: Seq<char>| #[trigger] out@.contains_key(t) <==> exists|k: int| 0 <= k < j && ge[k].0@ == t,
                forall|t: Seq<char>| #[trigger] out@.contains_key(t) ==> {
                    &&& texts(out@[t]@).to_multiset() == texts(groups@[t]@).to_multiset()
                    &&& text_sorted(texts(out@[t]@))
                },
            decreases ge.len() - j,
        {
            let key = keys_entries[j].0.clone();
            let list = keys_entries[j].1.clone();
            let sorted = sort_texts(list);
            let ghost kv = key@;
            let ghost prev = out@;
            out.insert(key, sorted);
            proof {
                assert forall|t: Seq<char>| #[trigger] out@.contains_key(t) <==> exists|k: int| 0 <= k < j + 1 && ge[k].0@ == t by {
                    if t == kv {
                        assert(ge[j as int].0@ == t);
                    }
                }
                assert forall|t: Seq<char>| #[trigger] out@.contains_key(t) implies {
                    &&& texts(out@[t]@).to_multiset() == texts(groups@[t]@).to_multiset()
                    &&& text_sorted(texts(out@[t]@))
                } by {
                    if t != kv {
                        assert(prev.contains_key(t));
                    }
                }
            }
            j += 1;
        }
        proof {
            assert forall|s: Seq<char>| #[trigger] out@.contains_key(s) implies {
                &&& texts(out@[s]@).no_duplicates()
                &&& text_sorted(texts(out@[s]@))
                &&& texts(out@[s]@).to_set() == Set::new(|f: Seq<char>| classes@.contains_key(f) && simple_name(f) == s)
            } by {
                let k = choose|k: int| 0 <= k < j && ge[k].0@ == s;
                assert(groups@.contains_key(s));
                lemma_multiset_same_set(texts(out@[s]@), texts(groups@[s]@));
                assert forall|f: Seq<char>| (exists|k: int| 0 <= k < e.len() && e[k].0@ == f && simple_name(f) == s)
                    <==> classes@.contains_key(f) && simple_name(f) == s by {
                    if classes@.contains_key(f) && simple_name(f) == s {
                        let k = choose|k: int| 0 <= k < e.len() && #[trigger] e[k].0@ == f;
                    }
                }
                assert(texts(out@[s]@).to_set() =~= Set::new(|f: Seq<char>| classes@.contains_key(f) && simple_name(f) == s));
            }
            assert forall|f: Seq<char>| #[trigger] classes@.contains_key(f) implies out@.contains_key(simple_name(f)) by {
                let k = choose|k: int| 0 <= k < e.len() && #[trigger] e[k].0@ == f;
                assert(groups@.contains_key(simple_name(e[k].0@)));
                let m = choose|m: int| 0 <= m < ge.len() && #[trigger] ge[m].0@ == simple_name(f);
            }
        }
        out
    }

    /// Resolve a Java import `specifier` to an indexed file. Exact FQN
    /// first; failing that, drop the last segment once so `import static
    /// com.example.Parser.parse` (a member import) lands on
    /// `com.example.Parser`. Anything left unresolved is an external
    /// (jdk/third-party) import.
    pub fn resolve(&self, specifier: &str) -> (r: Option<String>)
        ensures
            r matches Some(f) ==> f@ == resolve_spec(self.classes_view(), specifier@)->0,
            r is None <==> resolve_spec(self.classes_view(), specifier@) is None,
    {
        match self.classes.get(specifier) {
            Some(f) => Some(f.clone()),
            None => {
                let cs = chars_of(specifier);
                proof {
                    lemma_last_index_of(specifier@, '.');
                }
                match rfind_char(cs.as_slice(), '.') {
                    None => {
                        assert(last_index_of(specifier@, '.') is None);
                        None
                    },
                    Some(k) => {
                        assert(last_index_of(specifier@, '.') == Some(k as int));
                        let owner = string_of(chars_slice(cs.as_slice(), 0, k).as_slice());
                        match self.classes.get(owner.as_str()) {
                            Some(f) => Some(f.clone()),
                            None => None,
                        }
                    },
                }
            },
        }
    }

    /// Every indexed FQN whose simple name is `simple`, in text order.
    /// Empty for jdk/third-party names, which the index never contains.
    pub fn candidates(&self, simple: &str) -> (r: Vec<String>)
        ensures
            texts(r@) == self.candidates_spec(simple@),
            texts(r@).to_set() == self.named(simple@),
            texts(r@).no_duplicates(),
            text_sorted(texts(r@)),
    {
        proof {
            use_type_invariant(self);
        }
        match self.by_simple.get(simple) {
            Some(v) => {
                let r = v.clone();
                assert(r@ =~= v@);
                r
            },
            None => {
                assert forall|f: Seq<char>| !self.named(simple@).contains(f) by {
                    if self.classes_view().contains_key(f) && simple_name(f) == simple@ {
                        assert(self.classes@.contains_key(f));
                    }
                }
                assert(texts(Seq::<String>::empty()).to_set() =~= self.named(simple@));
                Vec::new()
            },
        }
    }
}

/// An index built from files and their packages resolves the FQN each
/// packaged file declares to the first file in path order declaring it,
/// and lists under a simple name exactly the FQNs some file declares with
/// that last segment.
pub proof fn law_declared_classes_resolve(
    ix: JavaClassIndex,
    files: Set<Seq<char>>,
    pkgs: Map<Seq<char>, PackageDecl>,
    f: Seq<char>,
    simple: Seq<char>,
)
    requires
        class_index_of(ix.classes_view(), files, pkgs),
        files.contains(f),
        class_fqn(pkgs, f) is Some,
    ensures
        resolve_spec(ix.classes_view(), class_fqn(pkgs, f)->0) matches Some(g) && {
            &&& files.contains(g)
            &&& class_fqn(pkgs, g) == class_fqn(pkgs, f)
            &&& !path_lt(f, g)
        },
        forall|q: Seq<char>| #[trigger] ix.named(simple).contains(q) <==> simple_name(q) == simple && exists|h: Seq<char>|
            files.contains(h) && class_fqn(pkgs, h) == Some(q),
{
    let q = class_fqn(pkgs, f)->0;
    assert(ix.classes_view().contains_key(q));
}

/// What [`JavaClassIndex::resolve`] computes over the FQN map.
pub open spec fn resolve_spec(classes: Map<Seq<char>, Seq<char>>, specifier: Seq<char>) -> Option<Seq<char>> {
    if classes.contains_key(specifier) {
        Some(classes[specifier])
    } else {
        match owner_name(specifier) {
            Some(o) => if classes.contains_key(o) { Some(classes[o]) } else { None },
            None => None,
        }
    }
}

/// The simple name of an FQN.
pub fn simple_of(fqn: &str) -> (r: String)
    ensures
        r@ == simple_name(fqn@),
{
    let cs = chars_of(fqn);
    proof {
        lemma_last_index_of(fqn@, '.');
    }
    match rfind_char(cs.as_slice(), '.') {
        Some(k) => {
            assert(last_index_of(fqn@, '.') == Some(k as int));
            assert(k < cs.len());
            string_of(chars_slice(cs.as_slice(), k + 1, cs.len()).as_slice())
        },
        None => {
            assert(last_index_of(fqn@, '.') is None);
            String::from_str(fqn)
        },
    }
}

/// Sequences with equal multisets have equal element sets, and a
/// duplicate-free one keeps its partner duplicate-free.
pub proof fn lemma_multiset_same_set<T>(a: Seq<T>, b: Seq<T>)
    requires
        a.to_multiset() == b.to_multiset(),
        b.no_duplicates(),
    ensures
        a.to_set() == b.to_set(),
        a.no_duplicates(),
{
    broadcast use vstd::seq_lib::group_to_multiset_ensures;
    assert forall|x: T| a.to_set().contains(x) <==> b.to_set().contains(x) by {
        vstd::seq_lib::to_multiset_contains(a, x);
        vstd::seq_lib::to_multiset_contains(b, x);
    }
    assert(a.to_set() =~= b.to_set());
    b.lemma_multiset_has_no_duplicates();
    a.lemma_multiset_has_no_duplicates_conv();
}

impl Default for JavaClassIndex {
    fn default() -> (r: Self)
        ensures
            r.classes_view() == Map::<Seq<char>, Seq<char>>::empty(),
    {
        JavaClassIndex::empty()
    }
}

} // verus!

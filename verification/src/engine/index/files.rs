//! Indexed source files with membership lookups.

use vstd::prelude::*;

use crate::order::{path_lt, sort_stable, sorted_by, TotalPreorder};
use crate::path::{comp_views, comps, components, components_prefix, normalized};

verus! {

/// The views of a sequence of strings.
pub open spec fn string_views(v: Seq<String>) -> Seq<Seq<char>> {
    v.map_values(|s: String| s@)
}

/// Whether `files` holds a path with the components of `q`: paths compare
/// as `Path` values do, so `a//b` and `a/./b` name `a/b`.
pub open spec fn has_path(files: Set<Seq<char>>, q: Seq<char>) -> bool {
    exists|p: Seq<char>| #[trigger] files.contains(p) && comps(p) == comps(q)
}

/// Normalized paths with the same components are the same path.
pub proof fn lemma_normalized_same_components(p: Seq<char>, q: Seq<char>)
    requires
        normalized(p) == Some(p),
        normalized(q) == Some(q),
        comps(p) == comps(q),
    ensures
        p == q,
{
}

/// The set of normalized project-relative source files discovered by the
/// scanner.
pub struct FileSet {
    paths: Vec<String>,
}

impl View for FileSet {
    type V = Set<Seq<char>>;

    closed spec fn view(&self) -> Set<Seq<char>> {
        string_views(self.paths@).to_set()
    }
}

impl FileSet {
    #[verifier::type_invariant]
    closed spec fn distinct(&self) -> bool {
        &&& string_views(self.paths@).no_duplicates()
        &&& forall|i: int| 0 <= i < self.paths@.len() ==> normalized(#[trigger] self.paths@[i]@) == Some(self.paths@[i]@)
    }

    /// An empty set.
    pub fn new() -> (r: Self)
        ensures
            r@ == Set::<Seq<char>>::empty(),
    {
        let r = FileSet { paths: Vec::new() };
        assert(string_views(r.paths@) =~= Seq::<Seq<char>>::empty());
        r
    }

    /// Whether `path` is a known indexed source file: some file has its
    /// components. For a normalized `path` that is the file `path` itself.
    pub fn contains(&self, path: &str) -> (r: bool)
        ensures
            r == has_path(self@, path@),
            normalized(path@) == Some(path@) ==> r == self@.contains(path@),
    {
        proof {
            use_type_invariant(self);
        }
        let want = components(path);
        let mut i: usize = 0;
        while i < self.paths.len()
            invariant
                i <= self.paths@.len(),
                comp_views(want@) == comps(path@),
                forall|j: int| 0 <= j < i ==> comps((#[trigger] self.paths@[j])@) != comps(path@),
                forall|j: int| 0 <= j < self.paths@.len() ==> normalized(#[trigger] self.paths@[j]@) == Some(self.paths@[j]@),
            decreases self.paths.len() - i,
        {
            let have = components(self.paths[i].as_str());
            assert(comp_views(have@).len() == have@.len() && comp_views(want@).len() == want@.len());
            if have.len() == want.len() && components_prefix(have.as_slice(), want.as_slice()) {
                let ghost p = self.paths@[i as int]@;
                proof {
                    let w = comp_views(want@);
                    assert(w.subrange(0, w.len() as int) =~= w);
                    assert(comps(p) == comps(path@));
                    assert(string_views(self.paths@)[i as int] == p);
                    assert(self@.contains(p));
                    if normalized(path@) == Some(path@) {
                        lemma_normalized_same_components(p, path@);
                    }
                }
                return true;
            }
            proof {
                let h = comp_views(have@);
                let w = comp_views(want@);
                if h == w {
                    assert(w.subrange(0, h.len() as int) =~= h);
                }
            }
            i += 1;
        }
        assert(!has_path(self@, path@)) by {
            if has_path(self@, path@) {
                let p = choose|p: Seq<char>| #[trigger] self@.contains(p) && comps(p) == comps(path@);
                let k = choose|k: int| 0 <= k < self.paths@.len() && string_views(self.paths@)[k] == p;
                assert(self.paths@[k]@ == p);
            }
        }
        false
    }

    /// Add a normalized project-relative path; `false` if it was already
    /// present.
    pub fn add(&mut self, path: String) -> (r: bool)
        requires
            normalized(path@) == Some(path@),
        ensures
            r == !old(self)@.contains(path@),
            final(self)@ == old(self)@.insert(path@),
    {
        proof {
            use_type_invariant(&*self);
        }
        if self.contains(path.as_str()) {
            assert(self@.insert(path@) =~= self@);
            return false;
        }
        let ghost before = string_views(self.paths@);
        let mut paths = Vec::new();
        std::mem::swap(&mut paths, &mut self.paths);
        let ghost p = path@;
        paths.push(path);
        assert(string_views(paths@) =~= before.push(p));
        proof {
            assert(!before.contains(p));
            assert forall|i: int, j: int| 0 <= i < j < before.push(p).len() implies before.push(p)[i] != before.push(p)[j] by {
                if j == before.len() {
                    assert(before.contains(before[i]));
                }
            }
            assert forall|x: Seq<char>| before.push(p).to_set().contains(x) <==> before.to_set().insert(p).contains(x) by {
                if before.push(p).to_set().contains(x) && x != p {
                    let k = choose|k: int| 0 <= k < before.push(p).len() && before.push(p)[k] == x;
                    assert(before[k] == x);
                }
                if before.to_set().contains(x) {
                    let k = choose|k: int| 0 <= k < before.len() && before[k] == x;
                    assert(before.push(p)[k] == x);
                }
                if x == p {
                    assert(before.push(p)[before.len() as int] == p);
                }
            }
            assert(before.push(p).to_set() =~= before.to_set().insert(p));
            assert forall|i: int| 0 <= i < paths@.len() implies normalized(#[trigger] paths@[i]@) == Some(paths@[i]@) by {
                if i < before.len() {
                    assert(string_views(paths@)[i] == before[i]);
                }
            }
        }
        self.paths = paths;
        true
    }

    /// All files in the path order, each once.
    pub fn sorted(&self) -> (r: Vec<String>)
        ensures
            string_views(r@).to_set() == self@,
            string_views(r@).no_duplicates(),
            sorted_by(r@),
    {
        proof {
            use_type_invariant(self);
        }
        let mut copy: Vec<String> = Vec::new();
        let mut i: usize = 0;
        while i < self.paths.len()
            invariant
                i <= self.paths@.len(),
                string_views(copy@) == string_views(self.paths@).take(i as int),
                copy@ == self.paths@.take(i as int),
            decreases self.paths.len() - i,
        {
            let ghost prev = copy@;
            let s = self.paths[i].clone();
            copy.push(s);
            assert(copy@ =~= self.paths@.take(i + 1));
            i += 1;
            assert(string_views(copy@) =~= string_views(self.paths@).take(i as int));
        }
        assert(copy@ =~= self.paths@);
        let r = sort_stable(copy);
        proof {
            lemma_views_multiset(r@, self.paths@);
        }
        r
    }
}

/// A file set filled by adds: `sets[k]` is the set after the first `k`
/// calls, `added[k]` what the `k`-th call of `add` returned, and
/// `listing` what `sorted` then gives. The set holds exactly the paths
/// added, an add answers `false` exactly for a path added before, the
/// listing holds each added path once, strictly ascending in the path
/// order. (`add` takes normalized paths.)
pub proof fn law_adds_fill_the_set(
    sets: Seq<FileSet>,
    paths: Seq<Seq<char>>,
    added: Seq<bool>,
    listing: Seq<String>,
)
    requires
        sets.len() == paths.len() + 1,
        added.len() == paths.len(),
        sets[0]@ == Set::<Seq<char>>::empty(),
        forall|k: int| 0 <= k < paths.len() ==> normalized(#[trigger] paths[k]) == Some(paths[k]),
        forall|k: int| #![trigger paths[k]] 0 <= k < paths.len() ==> added[k] == !sets[k]@.contains(paths[k]) && sets[k + 1]@ == sets[k]@.insert(paths[k]),
        string_views(listing).to_set() == sets.last()@,
        string_views(listing).no_duplicates(),
        sorted_by(listing),
    ensures
        sets.last()@ == paths.to_set(),
        forall|k: int| #![trigger paths[k]] 0 <= k < paths.len() ==> (added[k] <==> !paths.take(k).contains(paths[k])),
        forall|x: Seq<char>| string_views(listing).contains(x) <==> paths.contains(x),
        forall|i: int, j: int| #![trigger listing[i], listing[j]] 0 <= i < j < listing.len() ==> path_lt(listing[i]@, listing[j]@),
{
    assert forall|k: int| 0 <= k <= paths.len() implies #[trigger] sets[k]@ == paths.take(k).to_set() by {
        lemma_sets_after_adds(sets, paths, k);
    }
    assert(paths.take(paths.len() as int) =~= paths);
    assert(sets.last() == sets[paths.len() as int]);
    assert forall|k: int| #![trigger paths[k]] 0 <= k < paths.len() implies (added[k] <==> !paths.take(k).contains(paths[k])) by {
        assert(sets[k]@ == paths.take(k).to_set());
    }
    assert forall|x: Seq<char>| string_views(listing).contains(x) <==> paths.contains(x) by {
        assert(string_views(listing).contains(x) <==> string_views(listing).to_set().contains(x));
        assert(paths.contains(x) <==> paths.to_set().contains(x));
    }
    {
        assert forall|i: int, j: int| #![trigger listing[i], listing[j]] 0 <= i < j < listing.len() implies path_lt(listing[i]@, listing[j]@) by {
            let a = listing[i]@;
            let b = listing[j]@;
            assert(string_views(listing)[i] == a && string_views(listing)[j] == b);
            assert(a != b);
            assert(string_views(listing).contains(a) && string_views(listing).contains(b));
            assert(paths.to_set().contains(a) && paths.to_set().contains(b));
            let ka = choose|k: int| 0 <= k < paths.len() && paths[k] == a;
            let kb = choose|k: int| 0 <= k < paths.len() && paths[k] == b;
            assert(normalized(paths[ka]) == Some(a));
            assert(normalized(paths[kb]) == Some(b));
            assert(listing[i].le_spec(&listing[j]));
            crate::order::lemma_path_order(a, b, a);
        }
    }
}

proof fn lemma_sets_after_adds(sets: Seq<FileSet>, paths: Seq<Seq<char>>, k: int)
    requires
        sets.len() == paths.len() + 1,
        sets[0]@ == Set::<Seq<char>>::empty(),
        forall|k: int| #![trigger paths[k]] 0 <= k < paths.len() ==> sets[k + 1]@ == sets[k]@.insert(paths[k]),
        0 <= k <= paths.len(),
    ensures
        sets[k]@ == paths.take(k).to_set(),
    decreases k,
{
    if k == 0 {
        assert(paths.take(0).to_set() =~= Set::<Seq<char>>::empty());
    } else {
        lemma_sets_after_adds(sets, paths, k - 1);
        assert(paths.take(k) =~= paths.take(k - 1).push(paths[k - 1]));
        paths.take(k - 1).lemma_push_to_set_commute(paths[k - 1]);
    }
}

/// Equal multisets of strings have equal view sets, and distinct views
/// stay distinct.
pub proof fn lemma_views_multiset(a: Seq<String>, b: Seq<String>)
    requires
        a.to_multiset() == b.to_multiset(),
        string_views(b).no_duplicates(),
    ensures
        string_views(a).to_set() == string_views(b).to_set(),
        string_views(a).no_duplicates(),
{
    broadcast use vstd::seq_lib::group_to_multiset_ensures;
    assert forall|x: Seq<char>| string_views(a).to_set().contains(x) implies string_views(b).to_set().contains(x) by {
        let k = choose|k: int| 0 <= k < a.len() && string_views(a)[k] == x;
        vstd::seq_lib::to_multiset_contains(a, a[k]);
        vstd::seq_lib::to_multiset_contains(b, a[k]);
        assert(a.contains(a[k]));
        assert(b.contains(a[k]));
        let m = choose|m: int| 0 <= m < b.len() && b[m] == a[k];
        assert(string_views(b)[m] == x);
    }
    assert forall|x: Seq<char>| string_views(b).to_set().contains(x) implies string_views(a).to_set().contains(x) by {
        let k = choose|k: int| 0 <= k < b.len() && string_views(b)[k] == x;
        vstd::seq_lib::to_multiset_contains(a, b[k]);
        vstd::seq_lib::to_multiset_contains(b, b[k]);
        assert(b.contains(b[k]));
        assert(a.contains(b[k]));
        let m = choose|m: int| 0 <= m < a.len() && a[m] == b[k];
        assert(string_views(a)[m] == x);
    }
    assert(string_views(a).to_set() =~= string_views(b).to_set());
    assert forall|i: int, j: int| 0 <= i < j < a.len() implies string_views(a)[i] != string_views(a)[j] by {
        lemma_distinct_views_distinct_count(a, b, i, j);
    }
}

proof fn lemma_distinct_views_distinct_count(a: Seq<String>, b: Seq<String>, i: int, j: int)
    requires
        a.to_multiset() == b.to_multiset(),
        string_views(b).no_duplicates(),
        0 <= i < j < a.len(),
    ensures
        string_views(a)[i] != string_views(a)[j],
{
    broadcast use vstd::seq_lib::group_to_multiset_ensures;
    if string_views(a)[i] != string_views(a)[j] {
        return;
    }
    vstd::seq_lib::to_multiset_contains(a, a[i]);
    vstd::seq_lib::to_multiset_contains(b, a[i]);
    vstd::seq_lib::to_multiset_contains(a, a[j]);
    vstd::seq_lib::to_multiset_contains(b, a[j]);
    assert(a.contains(a[i]) && a.contains(a[j]));
    assert(b.contains(a[i]));
    assert(b.contains(a[j]));
    let m = choose|m: int| 0 <= m < b.len() && b[m] == a[i];
    let n = choose|n: int| 0 <= n < b.len() && b[n] == a[j];
    assert(string_views(b)[m] == string_views(b)[n]);
    assert(m == n);
    assert(a[i] == a[j]);
    // a[i] occurs twice in a, so at least twice in b, contradicting distinct views.
    lemma_count_two(a, i, j);
    lemma_count_at_most_one(b, a[i]);
}

proof fn lemma_count_two<T>(s: Seq<T>, i: int, j: int)
    requires
        0 <= i < j < s.len(),
        s[i] == s[j],
    ensures
        s.to_multiset().count(s[i]) >= 2,
    decreases s.len(),
{
    broadcast use vstd::seq_lib::group_to_multiset_ensures;
    let x = s[i];
    let t = s.drop_last();
    assert(s =~= t.push(s.last()));
    vstd::seq_lib::to_multiset_build(t, s.last());
    if j == s.len() - 1 {
        assert(t[i] == x);
        assert(t.contains(x));
        vstd::seq_lib::to_multiset_contains(t, x);
    } else {
        assert(t[i] == x && t[j] == x);
        lemma_count_two(t, i, j);
    }
}

proof fn lemma_count_at_most_one(s: Seq<String>, x: String)
    requires
        string_views(s).no_duplicates(),
    ensures
        s.to_multiset().count(x) <= 1,
    decreases s.len(),
{
    broadcast use vstd::seq_lib::group_to_multiset_ensures;
    if s.len() > 0 {
        let t = s.drop_last();
        assert(s =~= t.push(s.last()));
        vstd::seq_lib::to_multiset_build(t, s.last());
        assert(string_views(t) =~= string_views(s).drop_last());
        lemma_count_at_most_one(t, x);
        if s.last() == x {
            if t.contains(x) {
                let k = choose|k: int| 0 <= k < t.len() && t[k] == x;
                assert(string_views(s)[k] == string_views(s)[s.len() - 1]);
            }
            vstd::seq_lib::to_multiset_contains(t, x);
        }
    }
}

impl Default for FileSet {
    fn default() -> (r: Self)
        ensures
            r@ == Set::<Seq<char>>::empty(),
    {
        FileSet::new()
    }
}

} // verus!

//! Orders used to sort engine output deterministically: lexicographic
//! order on sequences, the component-wise order of paths, and a stable
//! insertion sort over any type with a total preorder.

use vstd::prelude::*;
use vstd::seq_lib::to_multiset_insert;

use crate::path::{comp_views, comps, components, Comp, Component};

verus! {

/// `lt` is a strict total order.
pub open spec fn strict_total<T>(lt: spec_fn(T, T) -> bool) -> bool {
    &&& forall|x: T| !#[trigger] lt(x, x)
    &&& forall|x: T, y: T, z: T| #[trigger] lt(x, y) && #[trigger] lt(y, z) ==> lt(x, z)
    &&& forall|x: T, y: T| x != y ==> #[trigger] lt(x, y) || #[trigger] lt(y, x)
}

/// Lexicographic strict order on sequences, elements compared by `lt`.
pub open spec fn lex_lt<T>(a: Seq<T>, b: Seq<T>, lt: spec_fn(T, T) -> bool) -> bool
    decreases a.len(),
{
    if a.len() == 0 {
        b.len() > 0
    } else if b.len() == 0 {
        false
    } else {
        lt(a[0], b[0]) || (a[0] == b[0] && lex_lt(a.drop_first(), b.drop_first(), lt))
    }
}

pub proof fn lemma_lex_irreflexive<T>(a: Seq<T>, lt: spec_fn(T, T) -> bool)
    requires
        strict_total(lt),
    ensures
        !lex_lt(a, a, lt),
    decreases a.len(),
{
    if a.len() > 0 {
        assert(!lt(a[0], a[0]));
        lemma_lex_irreflexive(a.drop_first(), lt);
    }
}

pub proof fn lemma_lex_transitive<T>(a: Seq<T>, b: Seq<T>, c: Seq<T>, lt: spec_fn(T, T) -> bool)
    requires
        strict_total(lt),
        lex_lt(a, b, lt),
        lex_lt(b, c, lt),
    ensures
        lex_lt(a, c, lt),
    decreases a.len(),
{
    if a.len() > 0 {
        assert(b.len() > 0 && c.len() > 0);
        if lt(a[0], b[0]) && lt(b[0], c[0]) {
        } else if lt(a[0], b[0]) {
        } else if lt(b[0], c[0]) {
        } else {
            lemma_lex_transitive(a.drop_first(), b.drop_first(), c.drop_first(), lt);
        }
    }
}

pub proof fn lemma_lex_total<T>(a: Seq<T>, b: Seq<T>, lt: spec_fn(T, T) -> bool)
    requires
        strict_total(lt),
        a != b,
    ensures
        lex_lt(a, b, lt) || lex_lt(b, a, lt),
    decreases a.len(),
{
    if a.len() > 0 && b.len() > 0 {
        if a[0] == b[0] {
            if a.drop_first() == b.drop_first() {
                assert(a =~= seq![a[0]] + a.drop_first());
                assert(b =~= seq![b[0]] + b.drop_first());
            }
            lemma_lex_total(a.drop_first(), b.drop_first(), lt);
        } else {
            assert(lt(a[0], b[0]) || lt(b[0], a[0]));
        }
    } else if a.len() == 0 && b.len() == 0 {
        assert(a =~= b);
    }
}

/// `lex_lt` inherits strict totality.
pub proof fn lemma_lex_strict_total<T>(lt: spec_fn(T, T) -> bool)
    requires
        strict_total(lt),
    ensures
        strict_total(|a: Seq<T>, b: Seq<T>| lex_lt(a, b, lt)),
{
    let l = |a: Seq<T>, b: Seq<T>| lex_lt(a, b, lt);
    assert forall|x: Seq<T>| !#[trigger] l(x, x) by {
        lemma_lex_irreflexive(x, lt);
    }
    assert forall|x: Seq<T>, y: Seq<T>, z: Seq<T>| #[trigger] l(x, y) && #[trigger] l(y, z) implies l(x, z) by {
        lemma_lex_transitive(x, y, z, lt);
    }
    assert forall|x: Seq<T>, y: Seq<T>| x != y implies #[trigger] l(x, y) || #[trigger] l(y, x) by {
        lemma_lex_total(x, y, lt);
    }
}

/// Characters ordered by code point.
pub open spec fn char_lt(a: char, b: char) -> bool {
    a < b
}

/// Strings ordered character-wise (the byte order of their UTF-8 text).
pub open spec fn text_lt(a: Seq<char>, b: Seq<char>) -> bool {
    lex_lt(a, b, |x: char, y: char| char_lt(x, y))
}

pub open spec fn comp_rank(c: Comp) -> int {
    match c {
        Comp::Root => 0,
        Comp::Cur => 1,
        Comp::Parent => 2,
        Comp::Normal(_) => 3,
    }
}

/// Component order: root, current dir, parent dir, then names by text.
pub open spec fn comp_lt(a: Comp, b: Comp) -> bool {
    comp_rank(a) < comp_rank(b) || (a is Normal && b is Normal && text_lt(a->Normal_0, b->Normal_0))
}

/// Component runs compared lexicographically.
pub open spec fn comps_lt(a: Seq<Comp>, b: Seq<Comp>) -> bool {
    lex_lt(a, b, |x: Comp, y: Comp| comp_lt(x, y))
}

/// The order of paths: component sequences compared lexicographically
/// (the order `Path` values sort in).
pub open spec fn path_lt(a: Seq<char>, b: Seq<char>) -> bool {
    comps_lt(comps(a), comps(b))
}

pub proof fn lemma_char_strict_total()
    ensures
        strict_total(|x: char, y: char| char_lt(x, y)),
{
}

pub proof fn lemma_comp_strict_total()
    ensures
        strict_total(|x: Comp, y: Comp| comp_lt(x, y)),
{
    lemma_char_strict_total();
    lemma_lex_strict_total(|x: char, y: char| char_lt(x, y));
    let tl = |a: Seq<char>, b: Seq<char>| lex_lt(a, b, |x: char, y: char| char_lt(x, y));
    assert forall|x: Comp, y: Comp| x != y implies #[trigger] comp_lt(x, y) || #[trigger] comp_lt(y, x) by {
        if x is Normal && y is Normal {
            assert(tl(x->Normal_0, y->Normal_0) || tl(y->Normal_0, x->Normal_0));
        }
    }
    assert forall|x: Comp, y: Comp, z: Comp| #[trigger] comp_lt(x, y) && #[trigger] comp_lt(y, z) implies comp_lt(x, z) by {
        if x is Normal && y is Normal && z is Normal {
            assert(tl(x->Normal_0, y->Normal_0) && tl(y->Normal_0, z->Normal_0));
        }
    }
    assert forall|x: Comp| !#[trigger] comp_lt(x, x) by {
        if x is Normal {
            assert(!tl(x->Normal_0, x->Normal_0));
        }
    }
}

pub proof fn lemma_comp_total(a: Comp, b: Comp)
    ensures
        a != b ==> comp_lt(a, b) || comp_lt(b, a),
        !comp_lt(a, a),
{
    lemma_comp_strict_total();
    let cl = |x: Comp, y: Comp| comp_lt(x, y);
    assert(cl(a, b) == comp_lt(a, b));
    assert(cl(b, a) == comp_lt(b, a));
    assert(cl(a, a) == comp_lt(a, a));
}

pub proof fn lemma_path_order(a: Seq<char>, b: Seq<char>, c: Seq<char>)
    ensures
        !path_lt(a, a),
        path_lt(a, b) && path_lt(b, c) ==> path_lt(a, c),
        comps(a) != comps(b) ==> path_lt(a, b) || path_lt(b, a),
        comps(a) == comps(b) ==> !path_lt(a, b),
{
    lemma_comp_strict_total();
    let cl = |x: Comp, y: Comp| comp_lt(x, y);
    assert(path_lt(a, b) == lex_lt(comps(a), comps(b), cl));
    assert(path_lt(b, c) == lex_lt(comps(b), comps(c), cl));
    assert(path_lt(a, c) == lex_lt(comps(a), comps(c), cl));
    assert(path_lt(b, a) == lex_lt(comps(b), comps(a), cl));
    lemma_lex_irreflexive(comps(a), cl);
    lemma_lex_irreflexive(comps(b), cl);
    if path_lt(a, b) && path_lt(b, c) {
        lemma_lex_transitive(comps(a), comps(b), comps(c), cl);
    }
    if comps(a) != comps(b) {
        lemma_lex_total(comps(a), comps(b), cl);
    }
}

/// Lexicographic comparison of two character slices.
pub fn chars_lt(a: &[char], b: &[char]) -> (r: bool)
    ensures
        r == text_lt(a@, b@),
{
    let mut i: usize = 0;
    assert(a@.subrange(0, a@.len() as int) =~= a@);
    assert(b@.subrange(0, b@.len() as int) =~= b@);
    while i < a.len() && i < b.len() && a[i] == b[i]
        invariant
            i <= a@.len(),
            i <= b@.len(),
            text_lt(a@, b@) == text_lt(a@.subrange(i as int, a@.len() as int), b@.subrange(i as int, b@.len() as int)),
        decreases a.len() - i,
    {
        let ghost x = a@.subrange(i as int, a@.len() as int);
        let ghost y = b@.subrange(i as int, b@.len() as int);
        assert(x.drop_first() =~= a@.subrange(i + 1, a@.len() as int));
        assert(y.drop_first() =~= b@.subrange(i + 1, b@.len() as int));
        i += 1;
    }
    if i == a.len() {
        i < b.len()
    } else if i == b.len() {
        false
    } else {
        a[i] < b[i]
    }
}

fn component_rank(c: &Component) -> (r: u8)
    ensures
        r as int == comp_rank(c@),
{
    match c {
        Component::RootDir => 0,
        Component::CurDir => 1,
        Component::ParentDir => 2,
        Component::Normal(_) => 3,
    }
}

fn component_lt(a: &Component, b: &Component) -> (r: bool)
    ensures
        r == comp_lt(a@, b@),
{
    let (ra, rb) = (component_rank(a), component_rank(b));
    if ra != rb {
        return ra < rb;
    }
    match (a, b) {
        (Component::Normal(x), Component::Normal(y)) => chars_lt(x.as_slice(), y.as_slice()),
        _ => false,
    }
}

/// Lexicographic comparison of component runs.
pub fn components_lt(a: &[Component], b: &[Component]) -> (r: bool)
    ensures
        r == comps_lt(comp_views(a@), comp_views(b@)),
{
    proof {
        lemma_comp_strict_total();
    }
    let ghost av = comp_views(a@);
    let ghost bv = comp_views(b@);
    let mut i: usize = 0;
    assert(av.subrange(0, av.len() as int) =~= av);
    assert(bv.subrange(0, bv.len() as int) =~= bv);
    loop
        invariant
            i <= a@.len(),
            i <= b@.len(),
            av == comp_views(a@),
            bv == comp_views(b@),
            comps_lt(av, bv) == comps_lt(av.subrange(i as int, av.len() as int), bv.subrange(i as int, bv.len() as int)),
        decreases a.len() - i,
    {
        let ghost x = av.subrange(i as int, av.len() as int);
        let ghost y = bv.subrange(i as int, bv.len() as int);
        assert(x.len() == a@.len() - i && y.len() == b@.len() - i);
        if i == a.len() {
            return i < b.len();
        }
        if i == b.len() {
            return false;
        }
        assert(x[0] == a@[i as int]@ && y[0] == b@[i as int]@);
        if component_lt(&a[i], &b[i]) {
            return true;
        }
        if component_lt(&b[i], &a[i]) {
            assert(!comp_lt(x[0], y[0]));
            assert(x[0] != y[0]);
            return false;
        }
        assert(x[0] == y[0]) by {
            lemma_comp_total(x[0], y[0]);
        }
        assert(x.drop_first() =~= av.subrange(i + 1, av.len() as int));
        assert(y.drop_first() =~= bv.subrange(i + 1, bv.len() as int));
        i += 1;
    }
}

/// `a` sorts strictly before `b` as a path.
pub fn path_before(a: &str, b: &str) -> (r: bool)
    ensures
        r == path_lt(a@, b@),
{
    let ca = components(a);
    let cb = components(b);
    components_lt(ca.as_slice(), cb.as_slice())
}

/// A total preorder on values of a type, decidable at run time.
pub trait TotalPreorder: Sized {
    /// `self` may precede `other`.
    spec fn le_spec(&self, other: &Self) -> bool;

    proof fn lemma_total(a: &Self, b: &Self)
        ensures
            a.le_spec(b) || b.le_spec(a),
    ;

    proof fn lemma_transitive(a: &Self, b: &Self, c: &Self)
        requires
            a.le_spec(b),
            b.le_spec(c),
        ensures
            a.le_spec(c),
    ;

    /// Decide [`TotalPreorder::le_spec`].
    fn le(&self, other: &Self) -> (r: bool)
        ensures
            r == self.le_spec(other),
    ;
}

/// `s` is sorted: every element may precede every later one.
pub open spec fn sorted_by<T: TotalPreorder>(s: Seq<T>) -> bool {
    forall|i: int, j: int| #![trigger s[i], s[j]] 0 <= i < j < s.len() ==> s[i].le_spec(&s[j])
}

/// Where insertion puts `x` into `r`, scanning from `p`: before the
/// first element that may not precede it.
pub open spec fn insert_pos<T: TotalPreorder>(r: Seq<T>, x: T, p: int) -> int
    decreases r.len() - p,
{
    if p >= r.len() || !r[p].le_spec(&x) {
        p
    } else {
        insert_pos(r, x, p + 1)
    }
}

/// An insertion position lies between the start of the scan and the end.
pub proof fn lemma_insert_pos_bounds<T: TotalPreorder>(r: Seq<T>, x: T, p: int)
    requires
        0 <= p <= r.len(),
    ensures
        p <= insert_pos(r, x, p) <= r.len(),
    decreases r.len() - p,
{
    if p < r.len() && r[p].le_spec(&x) {
        lemma_insert_pos_bounds(r, x, p + 1);
    }
}

/// Insertion sort of `s`: each element, in input order, goes after every
/// element already placed that may precede it, so elements that may
/// precede each other both ways keep their input order.
pub open spec fn insertion_sorted<T: TotalPreorder>(s: Seq<T>) -> Seq<T>
    decreases s.len(),
{
    if s.len() == 0 {
        Seq::empty()
    } else {
        let r = insertion_sorted(s.drop_last());
        r.insert(insert_pos(r, s.last(), 0), s.last())
    }
}

/// Stable insertion sort: a sorted permutation of `v`, exactly the one
/// [`insertion_sorted`] describes.
pub fn sort_stable<T: TotalPreorder>(v: Vec<T>) -> (r: Vec<T>)
    ensures
        r@.to_multiset() == v@.to_multiset(),
        sorted_by(r@),
        r@ == insertion_sorted(v@),
{
    let mut v = v;
    let ghost orig = v@;
    let mut r: Vec<T> = Vec::new();
    let ghost taken: Seq<T> = Seq::empty();
    while v.len() > 0
        invariant
            orig == taken + v@,
            r@.to_multiset() == taken.to_multiset(),
            sorted_by(r@),
            r@ == insertion_sorted(taken),
        decreases v.len(),
    {
        let x = v.remove(0);
        let ghost rest = v@;
        let ghost old_taken = taken;
        proof {
            taken = taken.push(x);
            assert(orig =~= taken + rest);
        }
        let mut p: usize = 0;
        while p < r.len() && r[p].le(&x)
            invariant
                p <= r@.len(),
                forall|i: int| #![trigger r@[i]] 0 <= i < p ==> r@[i].le_spec(&x),
                insert_pos(r@, x, 0) == insert_pos(r@, x, p as int),
            decreases r.len() - p,
        {
            p += 1;
        }
        proof {
            if p < r@.len() {
                T::lemma_total(&r@[p as int], &x);
                assert forall|j: int| #![trigger r@[j]] p <= j < r@.len() implies x.le_spec(&r@[j]) by {
                    if j > p {
                        T::lemma_transitive(&x, &r@[p as int], &r@[j]);
                    }
                }
            }
        }
        assert(insert_pos(r@, x, p as int) == p as int);
        assert(taken.drop_last() =~= old_taken);
        let ghost old_r = r@;
        r.insert(p, x);
        proof {
            to_multiset_insert(old_r, p as int, x);
            vstd::seq_lib::to_multiset_build(old_taken, x);
            assert forall|i: int, j: int| #![trigger r@[i], r@[j]] 0 <= i < j < r@.len() implies r@[i].le_spec(&r@[j]) by {
                if j < p {
                    assert(r@[i] == old_r[i] && r@[j] == old_r[j]);
                } else if j == p {
                    assert(r@[i] == old_r[i]);
                } else if i < p {
                    assert(r@[i] == old_r[i] && r@[j] == old_r[j - 1]);
                    if p < old_r.len() {
                        T::lemma_transitive(&old_r[i], &x, &old_r[j - 1]);
                    }
                } else if i == p {
                    assert(r@[j] == old_r[j - 1]);
                } else {
                    assert(r@[i] == old_r[i - 1] && r@[j] == old_r[j - 1]);
                }
            }
        }
    }
    assert(orig =~= taken);
    r
}

/// Paths under the component order.
impl TotalPreorder for String {
    open spec fn le_spec(&self, other: &Self) -> bool {
        !path_lt(other@, self@)
    }

    proof fn lemma_total(a: &Self, b: &Self) {
        lemma_path_order(a@, b@, a@);
    }

    proof fn lemma_transitive(a: &Self, b: &Self, c: &Self) {
        lemma_path_order(c@, a@, b@);
        lemma_path_order(b@, a@, c@);
        lemma_path_order(a@, b@, c@);
        lemma_path_order(c@, b@, a@);
        if path_lt(c@, a@) {
            if comps(b@) == comps(a@) {
                assert(comps(c@) != comps(a@));
            } else {
                lemma_path_order(a@, b@, c@);
            }
        }
    }

    fn le(&self, other: &Self) -> (r: bool) {
        !path_before(other.as_str(), self.as_str())
    }
}

/// `text_lt` is a strict total order on character sequences.
pub proof fn lemma_text_order(a: Seq<char>, b: Seq<char>, c: Seq<char>)
    ensures
        !text_lt(a, a),
        text_lt(a, b) && text_lt(b, c) ==> text_lt(a, c),
        a != b ==> text_lt(a, b) || text_lt(b, a),
{
    lemma_char_strict_total();
    let cl = |x: char, y: char| char_lt(x, y);
    assert(text_lt(a, b) == lex_lt(a, b, cl));
    assert(text_lt(b, c) == lex_lt(b, c, cl));
    assert(text_lt(a, c) == lex_lt(a, c, cl));
    assert(text_lt(b, a) == lex_lt(b, a, cl));
    lemma_lex_irreflexive(a, cl);
    if text_lt(a, b) && text_lt(b, c) {
        lemma_lex_transitive(a, b, c, cl);
    }
    if a != b {
        lemma_lex_total(a, b, cl);
    }
}

/// Filtering a sequence with one more element.
pub proof fn lemma_filter_push<A>(s: Seq<A>, x: A, p: spec_fn(A) -> bool)
    ensures
        s.push(x).filter(p) == if p(x) { s.filter(p).push(x) } else { s.filter(p) },
{
    assert(s.push(x).drop_last() =~= s);
    reveal(Seq::filter);
}

/// Mapping both sides of a permutation keeps them permutations.
pub proof fn lemma_map_multiset<A, B>(a: Seq<A>, b: Seq<A>, f: spec_fn(A) -> B)
    requires
        a.to_multiset() == b.to_multiset(),
    ensures
        a.map_values(f).to_multiset() == b.map_values(f).to_multiset(),
    decreases a.len(),
{
    broadcast use vstd::seq_lib::group_to_multiset_ensures;
    vstd::seq_lib::to_multiset_len(a);
    vstd::seq_lib::to_multiset_len(b);
    if a.len() == 0 {
        assert(b.len() == 0);
        assert(a.map_values(f) =~= b.map_values(f));
        return;
    }
    let x = a[0];
    vstd::seq_lib::to_multiset_contains(a, x);
    assert(a.contains(x));
    assert(b.to_multiset().count(x) > 0);
    vstd::seq_lib::to_multiset_contains(b, x);
    let k = choose|k: int| 0 <= k < b.len() && b[k] == x;
    vstd::seq_lib::to_multiset_remove(b, k);
    vstd::seq_lib::to_multiset_remove(a, 0);
    assert(a.remove(0) =~= a.drop_first());
    lemma_map_multiset(a.drop_first(), b.remove(k), f);
    assert(a.map_values(f) =~= a.drop_first().map_values(f).insert(0, f(x)));
    assert(b.map_values(f) =~= b.remove(k).map_values(f).insert(k, f(x)));
    vstd::seq_lib::to_multiset_insert(a.drop_first().map_values(f), 0, f(x));
    vstd::seq_lib::to_multiset_insert(b.remove(k).map_values(f), k, f(x));
}

/// A string ordered by its plain text (character by character), as
/// opposed to the component order paths use.
pub struct ByText(pub String);

impl TotalPreorder for ByText {
    open spec fn le_spec(&self, other: &Self) -> bool {
        !text_lt(other.0@, self.0@)
    }

    proof fn lemma_total(a: &Self, b: &Self) {
        lemma_text_order(a.0@, b.0@, a.0@);
    }

    proof fn lemma_transitive(a: &Self, b: &Self, c: &Self) {
        lemma_text_order(c.0@, b.0@, a.0@);
        lemma_text_order(c.0@, a.0@, b.0@);
        lemma_text_order(b.0@, c.0@, a.0@);
        lemma_text_order(a.0@, c.0@, b.0@);
        lemma_text_order(b.0@, a.0@, c.0@);
        lemma_text_order(a.0@, b.0@, c.0@);
    }

    fn le(&self, other: &Self) -> (r: bool) {
        let a = crate::text::chars_of(other.0.as_str());
        let b = crate::text::chars_of(self.0.as_str());
        !chars_lt(a.as_slice(), b.as_slice())
    }
}

/// The views of a sequence of strings.
pub open spec fn texts(v: Seq<String>) -> Seq<Seq<char>> {
    v.map_values(|s: String| s@)
}

/// Mapping commutes with pushing.
pub proof fn lemma_map_push<A, B>(s: Seq<A>, x: A, f: spec_fn(A) -> B)
    ensures
        s.push(x).map_values(f) == s.map_values(f).push(f(x)),
{
    assert(s.push(x).map_values(f) =~= s.map_values(f).push(f(x)));
}

/// The mapped prefix of length `i + 1` is the one of length `i` and the
/// mapped element at `i`.
pub proof fn lemma_map_take_push<A, B>(s: Seq<A>, i: int, f: spec_fn(A) -> B)
    requires
        0 <= i < s.len(),
    ensures
        s.map_values(f).take(i + 1) == s.map_values(f).take(i).push(f(s[i])),
        s.take(i + 1).map_values(f) == s.take(i).map_values(f).push(f(s[i])),
        s.map_values(f).take(s.len() as int) == s.map_values(f),
{
    assert(s.map_values(f).take(i + 1) =~= s.map_values(f).take(i).push(f(s[i])));
    assert(s.take(i + 1) =~= s.take(i).push(s[i]));
    lemma_map_push(s.take(i), s[i], f);
    assert(s.map_values(f).take(s.len() as int) =~= s.map_values(f));
}

/// A copy of a list of strings.
pub fn copy_texts(v: &Vec<String>) -> (r: Vec<String>)
    ensures
        texts(r@) == texts(v@),
{
    let mut out: Vec<String> = Vec::new();
    let mut i: usize = 0;
    while i < v.len()
        invariant
            i <= v@.len(),
            texts(out@) == texts(v@).take(i as int),
        decreases v.len() - i,
    {
        proof {
            lemma_map_push(out@, v@[i as int], |s: String| s@);
            lemma_map_take_push(v@, i as int, |s: String| s@);
        }
        out.push(v[i].clone());
        i += 1;
    }
    assert(texts(v@).take(v@.len() as int) =~= texts(v@));
    out
}

/// `s` is ascending in text order.
pub open spec fn text_sorted(s: Seq<Seq<char>>) -> bool {
    forall|i: int, j: int| #![trigger s[i], s[j]] 0 <= i < j < s.len() ==> !text_lt(s[j], s[i])
}

/// Sort strings by their plain text.
pub fn sort_texts(v: Vec<String>) -> (r: Vec<String>)
    ensures
        texts(r@).to_multiset() == texts(v@).to_multiset(),
        text_sorted(texts(r@)),
{
    let mut wrapped: Vec<ByText> = Vec::new();
    let mut v = v;
    let ghost orig = v@;
    let ghost mut taken: Seq<Seq<char>> = Seq::empty();
    while v.len() > 0
        invariant
            texts(orig) == taken + texts(v@),
            wrapped@.map_values(|b: ByText| b.0@) == taken,
        decreases v.len(),
    {
        let s = v.remove(0);
        proof {
            assert(texts(orig) == taken + texts(v@.insert(0, s)));
            assert(texts(v@.insert(0, s)) =~= seq![s@] + texts(v@));
            taken = taken.push(s@);
            assert(texts(orig) =~= taken + texts(v@));
        }
        let ghost before = wrapped@;
        wrapped.push(ByText(s));
        assert(wrapped@.map_values(|b: ByText| b.0@) =~= before.map_values(|b: ByText| b.0@).push(s@));
    }
    assert(texts(orig) =~= taken);
    let sorted = sort_stable(wrapped);
    let mut r: Vec<String> = Vec::new();
    let mut rest = sorted;
    let ghost all = rest@;
    let ghost mut done: Seq<ByText> = Seq::empty();
    while rest.len() > 0
        invariant
            all == done + rest@,
            texts(r@) == done.map_values(|b: ByText| b.0@),
        decreases rest.len(),
    {
        let b = rest.remove(0);
        proof {
            assert(all =~= done.push(b) + rest@);
            done = done.push(b);
        }
        let ghost before = r@;
        r.push(b.0);
        assert(texts(r@) =~= texts(before).push(done.last().0@));
        assert(done.map_values(|b: ByText| b.0@) =~= done.drop_last().map_values(|b: ByText| b.0@).push(done.last().0@));
    }
    proof {
        assert(done =~= all);
        let f = |b: ByText| b.0@;
        lemma_map_multiset(all, wrapped@, f);
        assert(all.to_multiset() == wrapped@.to_multiset());
        assert forall|i: int, j: int| #![trigger texts(r@)[i], texts(r@)[j]] 0 <= i < j < texts(r@).len() implies !text_lt(texts(r@)[j], texts(r@)[i]) by {
            assert(all[i].le_spec(&all[j]));
        }
    }
    r
}

} // verus!

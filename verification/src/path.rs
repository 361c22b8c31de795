//! Project paths as `/`-separated text.
//!
//! The model follows the component semantics of a Unix `std::path::Path`:
//! a path splits at `/` into segments; a leading `/` is the root, a leading
//! `.` segment is the current-directory marker, other `.` and empty
//! segments vanish, `..` is a parent step and everything else is a normal
//! component. Every operation here is specified over those components.

use vstd::prelude::*;

use crate::text::{chars_eq, chars_of, chars_slice, extend_chars, rfind_char};

verus! {

/// One path component.
pub enum Component {
    /// Leading `/`.
    RootDir,
    /// Leading `.`.
    CurDir,
    /// `..`.
    ParentDir,
    /// Any other non-empty segment.
    Normal(Vec<char>),
}

/// Mathematical view of a [`Component`].
pub enum Comp {
    /// Leading `/`.
    Root,
    /// Leading `.`.
    Cur,
    /// `..`.
    Parent,
    /// A named segment.
    Normal(Seq<char>),
}

impl View for Component {
    type V = Comp;

    open spec fn view(&self) -> Comp {
        match self {
            Component::RootDir => Comp::Root,
            Component::CurDir => Comp::Cur,
            Component::ParentDir => Comp::Parent,
            Component::Normal(v) => Comp::Normal(v@),
        }
    }
}

/// `p` split at every `/` (empty segments kept, at least one segment).
pub open spec fn segs(p: Seq<char>) -> Seq<Seq<char>>
    decreases p.len(),
{
    if p.len() == 0 {
        seq![Seq::<char>::empty()]
    } else {
        let s = segs(p.drop_last());
        if p.last() == '/' {
            s.push(Seq::<char>::empty())
        } else {
            s.update(s.len() - 1, s.last().push(p.last()))
        }
    }
}

/// `parts` joined with `sep` between consecutive elements.
pub open spec fn join(parts: Seq<Seq<char>>, sep: Seq<char>) -> Seq<char>
    decreases parts.len(),
{
    if parts.len() == 0 {
        Seq::<char>::empty()
    } else if parts.len() == 1 {
        parts[0]
    } else {
        join(parts.drop_last(), sep) + sep + parts.last()
    }
}

/// The one-character text `/`.
pub open spec fn slash() -> Seq<char> {
    seq!['/']
}

/// The text `..`.
pub open spec fn dotdot() -> Seq<char> {
    seq!['.', '.']
}

/// The component a non-leading segment stands for (`None` for an empty or
/// `.` segment, which vanish).
pub open spec fn seg_comp(s: Seq<char>) -> Option<Comp> {
    if s.len() == 0 || s == seq!['.'] {
        None
    } else if s == dotdot() {
        Some(Comp::Parent)
    } else {
        Some(Comp::Normal(s))
    }
}

/// Components of a run of non-leading segments.
pub open spec fn seg_comps(ss: Seq<Seq<char>>) -> Seq<Comp>
    decreases ss.len(),
{
    if ss.len() == 0 {
        Seq::<Comp>::empty()
    } else {
        let r = seg_comps(ss.drop_last());
        match seg_comp(ss.last()) {
            Some(c) => r.push(c),
            None => r,
        }
    }
}

/// The components of path text `p`.
pub open spec fn comps(p: Seq<char>) -> Seq<Comp> {
    let ss = segs(p);
    if p.len() > 0 && p[0] == '/' {
        seq![Comp::Root] + seg_comps(ss.drop_first())
    } else if ss[0] == seq!['.'] {
        seq![Comp::Cur] + seg_comps(ss.drop_first())
    } else {
        seg_comps(ss)
    }
}

/// The text a component is written as.
pub open spec fn comp_text(c: Comp) -> Seq<char> {
    match c {
        Comp::Root => slash(),
        Comp::Cur => seq!['.'],
        Comp::Parent => dotdot(),
        Comp::Normal(s) => s,
    }
}

/// `base` with `rel` pushed onto it (`PathBuf::push` / `Path::join`): an
/// absolute `rel` replaces `base`, otherwise a `/` separates the two unless
/// `base` is empty or already ends in `/`.
pub open spec fn join_path(base: Seq<char>, rel: Seq<char>) -> Seq<char> {
    if rel.len() > 0 && rel[0] == '/' {
        rel
    } else if base.len() == 0 || base.last() == '/' {
        base + rel
    } else {
        base + slash() + rel
    }
}

/// The path built by pushing each component in turn.
pub open spec fn path_of(cs: Seq<Comp>) -> Seq<char>
    decreases cs.len(),
{
    if cs.len() == 0 {
        Seq::<char>::empty()
    } else {
        join_path(path_of(cs.drop_last()), comp_text(cs.last()))
    }
}

/// The normal components' names, in order.
pub open spec fn normals(cs: Seq<Comp>) -> Seq<Seq<char>>
    decreases cs.len(),
{
    if cs.len() == 0 {
        Seq::<Seq<char>>::empty()
    } else {
        let r = normals(cs.drop_last());
        match cs.last() {
            Comp::Normal(s) => r.push(s),
            _ => r,
        }
    }
}

/// A name is a valid normal component: non-empty, no `/`, not `.`/`..`.
pub open spec fn is_name(s: Seq<char>) -> bool {
    s.len() > 0 && !s.contains('/') && s != seq!['.'] && s != dotdot()
}

/// The lexical normalization of a component run: `.` vanishes, `..` drops
/// the previous name; `None` when the run is rooted or climbs above its
/// start.
pub open spec fn norm_stack(cs: Seq<Comp>) -> Option<Seq<Seq<char>>>
    decreases cs.len(),
{
    if cs.len() == 0 {
        Some(Seq::<Seq<char>>::empty())
    } else {
        match norm_stack(cs.drop_last()) {
            None => None,
            Some(st) => match cs.last() {
                Comp::Root => None,
                Comp::Cur => Some(st),
                Comp::Parent => if st.len() == 0 {
                    None
                } else {
                    Some(st.drop_last())
                },
                Comp::Normal(s) => Some(st.push(s)),
            },
        }
    }
}

/// What [`normalize_rel_path`] computes.
pub open spec fn normalized(p: Seq<char>) -> Option<Seq<char>> {
    match norm_stack(comps(p)) {
        Some(st) => if st.len() > 0 {
            Some(join(st, slash()))
        } else {
            None
        },
        None => None,
    }
}

// ---------------------------------------------------------------------
// Lemmas
// ---------------------------------------------------------------------

pub proof fn lemma_segs_nonempty(p: Seq<char>)
    ensures
        segs(p).len() >= 1,
    decreases p.len(),
{
    if p.len() > 0 {
        lemma_segs_nonempty(p.drop_last());
    }
}

/// Every segment is free of `/`.
pub proof fn lemma_segs_no_slash(p: Seq<char>)
    ensures
        forall|i: int| 0 <= i < segs(p).len() ==> !(#[trigger] segs(p)[i]).contains('/'),
    decreases p.len(),
{
    if p.len() > 0 {
        lemma_segs_no_slash(p.drop_last());
        lemma_segs_nonempty(p.drop_last());
        let s = segs(p.drop_last());
        if p.last() != '/' {
            assert forall|i: int| 0 <= i < segs(p).len() implies !(#[trigger] segs(p)[i]).contains('/') by {
                if i == s.len() - 1 {
                    let x = s.last().push(p.last());
                    if x.contains('/') {
                        let k = choose|k: int| 0 <= k < x.len() && x[k] == '/';
                        assert(s.last()[k] == '/');
                    }
                }
            }
        }
    }
}

pub proof fn lemma_join_push(parts: Seq<Seq<char>>, x: Seq<char>, sep: Seq<char>)
    requires
        parts.len() > 0,
    ensures
        join(parts.push(x), sep) == join(parts, sep) + sep + x,
{
    assert(parts.push(x).drop_last() == parts);
}

/// Joining the segments gives the path back.
pub proof fn lemma_join_segs(p: Seq<char>)
    ensures
        join(segs(p), slash()) == p,
    decreases p.len(),
{
    if p.len() > 0 {
        let q = p.drop_last();
        lemma_join_segs(q);
        lemma_segs_nonempty(q);
        let s = segs(q);
        if p.last() == '/' {
            lemma_join_push(s, Seq::<char>::empty(), slash());
            assert(p == q + slash() + Seq::<char>::empty());
        } else {
            let t = s.update(s.len() - 1, s.last().push(p.last()));
            if s.len() == 1 {
                assert(t == seq![s.last().push(p.last())]);
                assert(p == q.push(p.last()));
            } else {
                assert(t.drop_last() == s.drop_last());
                assert(join(s, slash()) == join(s.drop_last(), slash()) + slash() + s.last());
                assert(p == q.push(p.last()));
                assert(join(t, slash()) =~= join(s, slash()).push(p.last()));
            }
        }
    }
}

/// The views of a vector of character vectors.
pub open spec fn views(v: Seq<Vec<char>>) -> Seq<Seq<char>> {
    v.map_values(|x: Vec<char>| x@)
}

// ---------------------------------------------------------------------
// Executable operations
// ---------------------------------------------------------------------

/// Split `p` at every `/`, keeping empty segments.
pub fn split_slash(p: &[char]) -> (r: Vec<Vec<char>>)
    ensures
        views(r@) == segs(p@),
{
    let mut done: Vec<Vec<char>> = Vec::new();
    let mut cur: Vec<char> = Vec::new();
    let mut i: usize = 0;
    while i < p.len()
        invariant
            i <= p@.len(),
            segs(p@.take(i as int)) == views(done@).push(cur@),
        decreases p.len() - i,
    {
        let c = p[i];
        let ghost before = p@.take(i as int);
        assert(p@.take(i + 1).drop_last() == before);
        let ghost d = views(done@);
        if c == '/' {
            done.push(cur);
            cur = Vec::new();
            assert(views(done@) =~= d.push(segs(before).last()));
            assert(segs(p@.take(i + 1)) =~= views(done@).push(cur@));
        } else {
            cur.push(c);
            assert(segs(p@.take(i + 1)) =~= views(done@).push(cur@));
        }
        i += 1;
    }
    assert(p@.take(p@.len() as int) == p@);
    let ghost d = views(done@);
    done.push(cur);
    assert(views(done@) =~= d.push(segs(p@).last()));
    done
}

/// The views of a vector of components.
pub open spec fn comp_views(v: Seq<Component>) -> Seq<Comp> {
    v.map_values(|c: Component| c@)
}

fn is_dot(s: &[char]) -> (r: bool)
    ensures
        r == (s@ == seq!['.']),
{
    let r = s.len() == 1 && s[0] == '.';
    if s.len() == 1 {
        assert(r ==> s@ =~= seq!['.']);
    }
    r
}

fn is_dotdot(s: &[char]) -> (r: bool)
    ensures
        r == (s@ == dotdot()),
{
    let r = s.len() == 2 && s[0] == '.' && s[1] == '.';
    if s.len() == 2 {
        assert(r ==> s@ =~= dotdot());
    }
    r
}

fn seg_component(s: &Vec<char>) -> (r: Option<Component>)
    ensures
        match r {
            Some(c) => seg_comp(s@) == Some(c@),
            None => seg_comp(s@) is None,
        },
{
    if s.len() == 0 || is_dot(s.as_slice()) {
        None
    } else if is_dotdot(s.as_slice()) {
        Some(Component::ParentDir)
    } else {
        Some(Component::Normal(s.clone()))
    }
}

/// The components of `p` (see the module docs).
pub fn components(p: &str) -> (r: Vec<Component>)
    ensures
        comp_views(r@) == comps(p@),
{
    let chars = chars_of(p);
    let ss = split_slash(chars.as_slice());
    proof {
        lemma_segs_nonempty(p@);
    }
    let mut out: Vec<Component> = Vec::new();
    let mut start: usize = 0;
    let rooted = chars.len() > 0 && chars[0] == '/';
    if rooted {
        out.push(Component::RootDir);
        start = 1;
    } else if is_dot(ss[0].as_slice()) {
        out.push(Component::CurDir);
        start = 1;
    }
    let ghost head = comp_views(out@);
    assert(views(ss@).subrange(start as int, start as int) =~= Seq::<Seq<char>>::empty());
    let mut k = start;
    while k < ss.len()
        invariant
            start <= k <= ss@.len(),
            start <= 1,
            views(ss@) == segs(p@),
            comp_views(out@) == head + seg_comps(views(ss@).subrange(start as int, k as int)),
        decreases ss.len() - k,
    {
        let ghost prev = comp_views(out@);
        let ghost sub = views(ss@).subrange(start as int, k + 1);
        assert(sub.drop_last() =~= views(ss@).subrange(start as int, k as int));
        assert(sub.last() == ss@[k as int]@);
        match seg_component(&ss[k]) {
            Some(c) => {
                out.push(c);
                assert(comp_views(out@) =~= prev.push(c@));
            },
            None => {},
        }
        k += 1;
    }
    assert(views(ss@).subrange(start as int, ss@.len() as int) =~= if start == 1 {
        segs(p@).drop_first()
    } else {
        segs(p@)
    });
    assert(head =~= if rooted {
        seq![Comp::Root]
    } else if start == 1 {
        seq![Comp::Cur]
    } else {
        Seq::<Comp>::empty()
    });
    proof {
        if !rooted && start == 0 {
            assert(Seq::<Comp>::empty() + seg_comps(segs(p@)) =~= seg_comps(segs(p@)));
        }
    }
    out
}

/// The text of one component.
pub fn component_text(c: &Component) -> (r: Vec<char>)
    ensures
        r@ == comp_text(c@),
{
    match c {
        Component::RootDir => {
            let mut v = Vec::new();
            v.push('/');
            assert(v@ =~= slash());
            v
        },
        Component::CurDir => {
            let mut v = Vec::new();
            v.push('.');
            assert(v@ =~= seq!['.']);
            v
        },
        Component::ParentDir => {
            let mut v = Vec::new();
            v.push('.');
            v.push('.');
            assert(v@ =~= dotdot());
            v
        },
        Component::Normal(s) => s.clone(),
    }
}

/// Push `rel` onto the path text `buf` (see [`join_path`]).
pub fn push_path(buf: &mut Vec<char>, rel: &[char])
    ensures
        final(buf)@ == join_path(old(buf)@, rel@),
{
    if rel.len() > 0 && rel[0] == '/' {
        let mut v = Vec::new();
        extend_chars(&mut v, rel);
        *buf = v;
        assert(buf@ =~= rel@);
    } else if buf.len() == 0 || buf[buf.len() - 1] == '/' {
        extend_chars(buf, rel);
    } else {
        buf.push('/');
        extend_chars(buf, rel);
        assert(buf@ =~= old(buf)@ + slash() + rel@);
    }
}

/// The path text of a component run (pushing each in turn).
pub fn path_text(cs: &[Component]) -> (r: Vec<char>)
    ensures
        r@ == path_of(comp_views(cs@)),
{
    let mut buf: Vec<char> = Vec::new();
    let mut i: usize = 0;
    while i < cs.len()
        invariant
            i <= cs@.len(),
            buf@ == path_of(comp_views(cs@).take(i as int)),
        decreases cs.len() - i,
    {
        let t = component_text(&cs[i]);
        push_path(&mut buf, t.as_slice());
        i += 1;
        assert(comp_views(cs@).take(i as int).drop_last() =~= comp_views(cs@).take(i - 1));
    }
    assert(comp_views(cs@).take(cs@.len() as int) =~= comp_views(cs@));
    buf
}

/// `parts` joined with `sep`.
pub fn join_chars(parts: &[Vec<char>], sep: &[char]) -> (r: Vec<char>)
    ensures
        r@ == join(views(parts@), sep@),
{
    let mut out: Vec<char> = Vec::new();
    let mut i: usize = 0;
    while i < parts.len()
        invariant
            i <= parts@.len(),
            out@ == join(views(parts@).take(i as int), sep@),
        decreases parts.len() - i,
    {
        let ghost prev = views(parts@).take(i as int);
        if i > 0 {
            extend_chars(&mut out, sep);
        }
        extend_chars(&mut out, parts[i].as_slice());
        i += 1;
        assert(views(parts@).take(i as int).drop_last() =~= prev);
        if i == 1 {
            assert(out@ =~= join(views(parts@).take(1), sep@));
        }
    }
    assert(views(parts@).take(parts@.len() as int) =~= views(parts@));
    out
}

/// Lexical normalization of a component run (see [`norm_stack`]).
pub fn normalize_components(cs: &[Component]) -> (r: Option<Vec<Vec<char>>>)
    ensures
        match r {
            Some(st) => norm_stack(comp_views(cs@)) == Some(views(st@)),
            None => norm_stack(comp_views(cs@)) is None,
        },
{
    let mut st: Vec<Vec<char>> = Vec::new();
    let mut i: usize = 0;
    while i < cs.len()
        invariant
            i <= cs@.len(),
            norm_stack(comp_views(cs@).take(i as int)) == Some(views(st@)),
        decreases cs.len() - i,
    {
        let ghost pre = comp_views(cs@).take(i as int);
        assert(comp_views(cs@).take(i + 1).drop_last() =~= pre);
        let ghost prev = views(st@);
        match &cs[i] {
            Component::RootDir => {
                assert(norm_stack(comp_views(cs@).take(i + 1)) is None);
                proof {
                    lemma_norm_stack_none_extends(comp_views(cs@), i + 1);
                }
                assert(comp_views(cs@).take(cs@.len() as int) =~= comp_views(cs@));
                return None;
            },
            Component::CurDir => {},
            Component::ParentDir => {
                if st.len() == 0 {
                    proof {
                        lemma_norm_stack_none_extends(comp_views(cs@), i + 1);
                    }
                    assert(comp_views(cs@).take(cs@.len() as int) =~= comp_views(cs@));
                    return None;
                }
                st.pop();
                assert(views(st@) =~= prev.drop_last());
            },
            Component::Normal(n) => {
                st.push(n.clone());
                assert(views(st@) =~= prev.push(n@));
            },
        }
        i += 1;
    }
    assert(comp_views(cs@).take(cs@.len() as int) =~= comp_views(cs@));
    Some(st)
}

/// Once the normalization fails on a prefix, it fails on the whole run.
pub proof fn lemma_norm_stack_none_extends(cs: Seq<Comp>, k: int)
    requires
        0 <= k <= cs.len(),
        norm_stack(cs.take(k)) is None,
    ensures
        norm_stack(cs) is None,
    decreases cs.len() - k,
{
    if k < cs.len() {
        assert(cs.take(k + 1).drop_last() =~= cs.take(k));
        lemma_norm_stack_none_extends(cs, k + 1);
    } else {
        assert(cs.take(k) =~= cs);
    }
}

/// The text `rel_str` renders: components joined by `/`.
pub open spec fn rel_text(p: Seq<char>) -> Seq<char> {
    join(comps(p).map_values(|c: Comp| comp_text(c)), slash())
}

/// `true` when `pre` is a prefix of `cs`.
pub open spec fn comps_prefix(pre: Seq<Comp>, cs: Seq<Comp>) -> bool {
    pre.len() <= cs.len() && cs.subrange(0, pre.len() as int) == pre
}

/// Component equality.
pub fn component_eq(a: &Component, b: &Component) -> (r: bool)
    ensures
        r == (a@ == b@),
{
    match (a, b) {
        (Component::RootDir, Component::RootDir) => true,
        (Component::CurDir, Component::CurDir) => true,
        (Component::ParentDir, Component::ParentDir) => true,
        (Component::Normal(x), Component::Normal(y)) => chars_eq(x.as_slice(), y.as_slice()),
        _ => false,
    }
}

/// Whether the component run `pre` is a prefix of `cs`.
pub fn components_prefix(pre: &[Component], cs: &[Component]) -> (r: bool)
    ensures
        r == comps_prefix(comp_views(pre@), comp_views(cs@)),
{
    if pre.len() > cs.len() {
        return false;
    }
    let mut i: usize = 0;
    while i < pre.len()
        invariant
            pre@.len() <= cs@.len(),
            i <= pre@.len(),
            forall|j: int| 0 <= j < i ==> comp_views(pre@)[j] == comp_views(cs@)[j],
        decreases pre.len() - i,
    {
        if !component_eq(&pre[i], &cs[i]) {
            assert(comp_views(cs@).subrange(0, pre@.len() as int)[i as int] != comp_views(pre@)[i as int]);
            return false;
        }
        i += 1;
    }
    assert(comp_views(cs@).subrange(0, pre@.len() as int) =~= comp_views(pre@));
    true
}

/// Clone of a component.
pub fn component_clone(c: &Component) -> (r: Component)
    ensures
        r@ == c@,
{
    match c {
        Component::RootDir => Component::RootDir,
        Component::CurDir => Component::CurDir,
        Component::ParentDir => Component::ParentDir,
        Component::Normal(s) => Component::Normal(s.clone()),
    }
}

/// A copy of `cs[from..to]`.
pub fn components_slice(cs: &[Component], from: usize, to: usize) -> (r: Vec<Component>)
    requires
        from <= to <= cs@.len(),
    ensures
        comp_views(r@) == comp_views(cs@).subrange(from as int, to as int),
{
    let mut r: Vec<Component> = Vec::new();
    let mut i = from;
    while i < to
        invariant
            from <= i <= to <= cs@.len(),
            comp_views(r@) == comp_views(cs@).subrange(from as int, i as int),
        decreases to - i,
    {
        let ghost prev = comp_views(r@);
        let c = component_clone(&cs[i]);
        r.push(c);
        assert(comp_views(r@) =~= prev.push(comp_views(cs@)[i as int]));
        i += 1;
        assert(comp_views(r@) =~= comp_views(cs@).subrange(from as int, i as int));
    }
    r
}

/// The final component's name when it is a normal component
/// (`Path::file_name`).
pub open spec fn file_name_of(p: Seq<char>) -> Option<Seq<char>> {
    let cs = comps(p);
    if cs.len() > 0 && cs.last() is Normal {
        Some(cs.last()->Normal_0)
    } else {
        None
    }
}

/// The names of the directories that contain `p`: the normal components
/// of its parent.
pub open spec fn dir_names(p: Seq<char>) -> Seq<Seq<char>> {
    let cs = comps(p);
    if cs.len() == 0 {
        Seq::<Seq<char>>::empty()
    } else {
        normals(cs.drop_last())
    }
}

/// `Path::file_name`.
pub fn file_name(p: &str) -> (r: Option<Vec<char>>)
    ensures
        match r {
            Some(v) => file_name_of(p@) == Some(v@),
            None => file_name_of(p@) is None,
        },
{
    let cs = components(p);
    if cs.len() == 0 {
        return None;
    }
    match &cs[cs.len() - 1] {
        Component::Normal(n) => Some(n.clone()),
        _ => None,
    }
}

/// The normal component names of a component run.
pub fn normal_names(cs: &[Component]) -> (r: Vec<Vec<char>>)
    ensures
        views(r@) == normals(comp_views(cs@)),
{
    let mut r: Vec<Vec<char>> = Vec::new();
    let mut i: usize = 0;
    while i < cs.len()
        invariant
            i <= cs@.len(),
            views(r@) == normals(comp_views(cs@).take(i as int)),
        decreases cs.len() - i,
    {
        let ghost prev = views(r@);
        assert(comp_views(cs@).take(i + 1).drop_last() =~= comp_views(cs@).take(i as int));
        match &cs[i] {
            Component::Normal(n) => {
                r.push(n.clone());
                assert(views(r@) =~= prev.push(n@));
            },
            _ => {},
        }
        i += 1;
    }
    assert(comp_views(cs@).take(cs@.len() as int) =~= comp_views(cs@));
    r
}

/// The names of the directories containing `p` (see [`dir_names`]).
pub fn dir_parts(p: &str) -> (r: Vec<Vec<char>>)
    ensures
        views(r@) == dir_names(p@),
{
    let cs = components(p);
    if cs.len() == 0 {
        return Vec::new();
    }
    let parent = components_slice(cs.as_slice(), 0, cs.len() - 1);
    assert(comp_views(cs@).subrange(0, cs@.len() - 1) =~= comp_views(cs@).drop_last());
    normal_names(parent.as_slice())
}

/// `Path::parent`: the path without its final component; `None` for an
/// empty path or the root.
pub open spec fn parent_of(p: Seq<char>) -> Option<Seq<char>> {
    let cs = comps(p);
    if cs.len() == 0 || cs.last() is Root {
        None
    } else {
        Some(path_of(cs.drop_last()))
    }
}

/// `Path::parent`.
pub fn parent(p: &str) -> (r: Option<Vec<char>>)
    ensures
        match r {
            Some(v) => parent_of(p@) == Some(v@),
            None => parent_of(p@) is None,
        },
{
    let cs = components(p);
    if cs.len() == 0 {
        return None;
    }
    match &cs[cs.len() - 1] {
        Component::RootDir => None,
        _ => {
            let rest = components_slice(cs.as_slice(), 0, cs.len() - 1);
            assert(comp_views(cs@).subrange(0, cs@.len() - 1) =~= comp_views(cs@).drop_last());
            Some(path_text(rest.as_slice()))
        },
    }
}

/// `Path::extension`: the text after the last `.` of the file name,
/// unless that dot starts the name.
pub open spec fn extension_of(p: Seq<char>) -> Option<Seq<char>> {
    match file_name_of(p) {
        None => None,
        Some(name) => match last_dot(name) {
            Some(k) => if k > 0 {
                Some(name.subrange(k + 1, name.len() as int))
            } else {
                None
            },
            None => None,
        },
    }
}

/// `Path::file_stem`: the file name up to its last `.`, unless that dot
/// starts the name.
pub open spec fn file_stem_of(p: Seq<char>) -> Option<Seq<char>> {
    match file_name_of(p) {
        None => None,
        Some(name) => match last_dot(name) {
            Some(k) => if k > 0 {
                Some(name.subrange(0, k))
            } else {
                Some(name)
            },
            None => Some(name),
        },
    }
}

/// Index of the last `.` in `s`.
pub open spec fn last_dot(s: Seq<char>) -> Option<int>
    decreases s.len(),
{
    if s.len() == 0 {
        None
    } else if s.last() == '.' {
        Some(s.len() - 1)
    } else {
        last_dot(s.drop_last())
    }
}

pub proof fn lemma_last_dot(s: Seq<char>)
    ensures
        match last_dot(s) {
            Some(k) => 0 <= k < s.len() && s[k] == '.' && forall|j: int| k < j < s.len() ==> s[j] != '.',
            None => forall|j: int| 0 <= j < s.len() ==> s[j] != '.',
        },
    decreases s.len(),
{
    if s.len() > 0 && s.last() != '.' {
        let t = s.drop_last();
        lemma_last_dot(t);
        assert forall|j: int| 0 <= j < t.len() implies t[j] == s[j] by {}
    }
}

/// `Path::extension`.
pub fn extension(p: &str) -> (r: Option<Vec<char>>)
    ensures
        match r {
            Some(v) => extension_of(p@) == Some(v@),
            None => extension_of(p@) is None,
        },
{
    let name = match file_name(p) {
        Some(n) => n,
        None => return None,
    };
    proof {
        lemma_last_dot(name@);
    }
    match rfind_char(name.as_slice(), '.') {
        Some(k) => {
            assert(last_dot(name@) == Some(k as int));
            assert(k < name.len());
            if k > 0 {
                Some(chars_slice(name.as_slice(), k + 1, name.len()))
            } else {
                None
            }
        },
        None => {
            assert(last_dot(name@) is None);
            None
        },
    }
}

/// `Path::file_stem`.
pub fn file_stem(p: &str) -> (r: Option<Vec<char>>)
    ensures
        match r {
            Some(v) => file_stem_of(p@) == Some(v@),
            None => file_stem_of(p@) is None,
        },
{
    let name = match file_name(p) {
        Some(n) => n,
        None => return None,
    };
    proof {
        lemma_last_dot(name@);
    }
    match rfind_char(name.as_slice(), '.') {
        Some(k) => {
            assert(last_dot(name@) == Some(k as int));
            if k > 0 {
                Some(chars_slice(name.as_slice(), 0, k))
            } else {
                Some(name)
            }
        },
        None => {
            assert(last_dot(name@) is None);
            Some(name)
        },
    }
}

} // verus!

verus! {

/// Splitting after appending a `/`-free run extends the last segment.
proof fn lemma_segs_append_run(p: Seq<char>, x: Seq<char>)
    requires
        !x.contains('/'),
    ensures
        segs(p + x).len() == segs(p).len(),
        segs(p + x) == segs(p).update(segs(p).len() - 1, segs(p).last() + x),
    decreases x.len(),
{
    lemma_segs_nonempty(p);
    if x.len() == 0 {
        assert(p + x =~= p);
        assert(segs(p).last() + x =~= segs(p).last());
        assert(segs(p).update(segs(p).len() - 1, segs(p).last()) =~= segs(p));
    } else {
        let y = x.drop_last();
        assert(!y.contains('/')) by {
            if y.contains('/') {
                let k = choose|k: int| 0 <= k < y.len() && y[k] == '/';
                assert(x[k] == '/');
            }
        }
        lemma_segs_append_run(p, y);
        assert((p + x).drop_last() =~= p + y);
        assert((p + x).last() == x.last());
        assert(x.last() != '/') by {
            assert(x[x.len() - 1] == x.last());
        }
        let s = segs(p + y);
        assert(s.last() == segs(p).last() + y);
        assert(segs(p).last() + y + seq![x.last()] =~= segs(p).last() + x);
        assert(s.last().push(x.last()) =~= segs(p).last() + x);
        assert(s.update(s.len() - 1, s.last().push(x.last())) =~= segs(p).update(segs(p).len() - 1, segs(p).last() + x));
    }
}

/// Splitting `/`-free names joined by `/` gives the names back.
pub proof fn lemma_segs_join(ns: Seq<Seq<char>>)
    requires
        ns.len() > 0,
        forall|i: int| 0 <= i < ns.len() ==> !(#[trigger] ns[i]).contains('/'),
    ensures
        segs(join(ns, slash())) == ns,
    decreases ns.len(),
{
    if ns.len() == 1 {
        let e = Seq::<char>::empty();
        lemma_segs_append_run(e, ns[0]);
        assert(e + ns[0] =~= ns[0]);
        assert(seq![e].update(0, e + ns[0]) =~= ns);
    } else {
        let front = ns.drop_last();
        lemma_segs_join(front);
        let q = join(front, slash());
        let with_sep = q + slash();
        assert(with_sep.drop_last() =~= q);
        assert(segs(with_sep) == segs(q).push(Seq::<char>::empty()));
        lemma_segs_append_run(with_sep, ns.last());
        assert(join(ns, slash()) == with_sep + ns.last());
        assert(Seq::<char>::empty() + ns.last() =~= ns.last());
        assert(front.push(Seq::<char>::empty()).update(front.len() as int, ns.last()) =~= ns);
    }
}

/// Names joined by `/` parse into those names as normal components.
pub proof fn lemma_comps_join(ns: Seq<Seq<char>>)
    requires
        ns.len() > 0,
        forall|i: int| 0 <= i < ns.len() ==> is_name(#[trigger] ns[i]),
    ensures
        comps(join(ns, slash())) == ns.map_values(|n: Seq<char>| Comp::Normal(n)),
{
    assert forall|i: int| 0 <= i < ns.len() implies !(#[trigger] ns[i]).contains('/') by {
        assert(is_name(ns[i]));
    }
    lemma_segs_join(ns);
    let p = join(ns, slash());
    lemma_seg_comps_names(ns);
    lemma_join_first(ns);
    assert(is_name(ns[0]));
    assert(p[0] == ns[0][0]);
    assert(ns[0][0] != '/') by {
        if ns[0][0] == '/' {
            assert(ns[0].contains('/'));
        }
    }
}

pub proof fn lemma_join_first(ns: Seq<Seq<char>>)
    requires
        ns.len() > 0,
        ns[0].len() > 0,
    ensures
        join(ns, slash()).len() >= ns[0].len(),
        join(ns, slash())[0] == ns[0][0],
    decreases ns.len(),
{
    if ns.len() > 1 {
        lemma_join_first(ns.drop_last());
    }
}

proof fn lemma_seg_comps_names(ns: Seq<Seq<char>>)
    requires
        forall|i: int| 0 <= i < ns.len() ==> is_name(#[trigger] ns[i]),
    ensures
        seg_comps(ns) == ns.map_values(|n: Seq<char>| Comp::Normal(n)),
    decreases ns.len(),
{
    if ns.len() > 0 {
        lemma_seg_comps_names(ns.drop_last());
        assert(is_name(ns.last())) by {
            assert(is_name(ns[ns.len() - 1]));
        }
        assert(ns.map_values(|n: Seq<char>| Comp::Normal(n)) =~= ns.drop_last().map_values(|n: Seq<char>| Comp::Normal(n)).push(
            Comp::Normal(ns.last()),
        ));
    } else {
        assert(ns.map_values(|n: Seq<char>| Comp::Normal(n)) =~= Seq::<Comp>::empty());
    }
}

/// Every normal component of a path is a name.
pub proof fn lemma_comps_names(p: Seq<char>)
    ensures
        forall|i: int| 0 <= i < comps(p).len() ==> (#[trigger] comps(p)[i] matches Comp::Normal(s) ==> is_name(s)),
{
    lemma_segs_no_slash(p);
    lemma_segs_nonempty(p);
    let ss = segs(p);
    lemma_seg_comps_ok(ss);
    lemma_seg_comps_ok(ss.drop_first());
    assert forall|i: int| 0 <= i < ss.drop_first().len() implies !(#[trigger] ss.drop_first()[i]).contains('/') by {
        assert(ss.drop_first()[i] == ss[i + 1]);
    }
}

proof fn lemma_seg_comps_ok(ss: Seq<Seq<char>>)
    requires
        forall|i: int| 0 <= i < ss.len() ==> !(#[trigger] ss[i]).contains('/'),
    ensures
        forall|i: int| 0 <= i < seg_comps(ss).len() ==> (#[trigger] seg_comps(ss)[i] matches Comp::Normal(s) ==> is_name(s)),
    decreases ss.len(),
{
    if ss.len() > 0 {
        lemma_seg_comps_ok(ss.drop_last());
        assert(!ss.last().contains('/')) by {
            assert(!ss[ss.len() - 1].contains('/'));
        }
    }
}

/// Normalization only ever keeps names.
proof fn lemma_norm_stack_names(cs: Seq<Comp>)
    requires
        forall|i: int| 0 <= i < cs.len() ==> (#[trigger] cs[i] matches Comp::Normal(s) ==> is_name(s)),
    ensures
        norm_stack(cs) matches Some(st) ==> forall|i: int| 0 <= i < st.len() ==> is_name(#[trigger] st[i]),
    decreases cs.len(),
{
    if cs.len() > 0 {
        lemma_norm_stack_names(cs.drop_last());
        assert(cs.last() == cs[cs.len() - 1]);
    }
}

/// Normal components only: normalization keeps them all.
proof fn lemma_norm_stack_normals(ns: Seq<Seq<char>>)
    ensures
        norm_stack(ns.map_values(|n: Seq<char>| Comp::Normal(n))) == Some(ns),
    decreases ns.len(),
{
    let cs = ns.map_values(|n: Seq<char>| Comp::Normal(n));
    if ns.len() > 0 {
        lemma_norm_stack_normals(ns.drop_last());
        assert(cs.drop_last() =~= ns.drop_last().map_values(|n: Seq<char>| Comp::Normal(n)));
        assert(cs.last() == Comp::Normal(ns.last()));
        assert(ns.drop_last().push(ns.last()) =~= ns);
    } else {
        assert(ns =~= Seq::<Seq<char>>::empty());
    }
}

/// Normalizing a normalized path gives it back, and the path is already
/// in the `/`-joined form that `rel_str` renders.
pub proof fn law_normalization_is_idempotent(p: Seq<char>)
    requires
        normalized(p) is Some,
    ensures
        normalized(normalized(p).unwrap()) == normalized(p),
        rel_text(normalized(p).unwrap()) == normalized(p).unwrap(),
{
    lemma_comps_names(p);
    lemma_norm_stack_names(comps(p));
    let st = norm_stack(comps(p)).unwrap();
    let q = join(st, slash());
    lemma_comps_join(st);
    lemma_norm_stack_normals(st);
    assert(st.map_values(|n: Seq<char>| Comp::Normal(n)).map_values(|c: Comp| comp_text(c)) =~= st);
}

} // verus!

verus! {

/// A normalized path is its normalization's names joined by `/`.
pub proof fn lemma_normalized_names(p: Seq<char>)
    requires
        normalized(p) is Some,
    ensures
        norm_stack(comps(p)) is Some,
        norm_stack(comps(p))->Some_0.len() > 0,
        forall|i: int| 0 <= i < norm_stack(comps(p))->Some_0.len() ==> is_name(#[trigger] norm_stack(comps(p))->Some_0[i]),
        normalized(p) == Some(join(norm_stack(comps(p))->Some_0, slash())),
{
    lemma_comps_names(p);
    lemma_norm_stack_names(comps(p));
}

/// Pushing names one by one builds their `/`-joined text.
pub proof fn lemma_path_of_names(ns: Seq<Seq<char>>)
    requires
        forall|i: int| 0 <= i < ns.len() ==> is_name(#[trigger] ns[i]),
    ensures
        path_of(ns.map_values(|n: Seq<char>| Comp::Normal(n))) == join(ns, slash()),
    decreases ns.len(),
{
    let cs = ns.map_values(|n: Seq<char>| Comp::Normal(n));
    if ns.len() > 0 {
        let front = ns.drop_last();
        assert forall|i: int| 0 <= i < front.len() implies is_name(#[trigger] front[i]) by {
            assert(front[i] == ns[i]);
        }
        lemma_path_of_names(front);
        assert(cs.drop_last() =~= front.map_values(|n: Seq<char>| Comp::Normal(n)));
        let x = ns.last();
        assert(is_name(x)) by {
            assert(x == ns[ns.len() - 1]);
        }
        assert(comp_text(cs.last()) == x);
        assert(x[0] != '/') by {
            if x[0] == '/' {
                assert(x.contains('/'));
            }
        }
        if front.len() > 0 {
            lemma_join_push(front, x, slash());
            assert(front.push(x) =~= ns);
            lemma_join_last(front);
            assert(is_name(front.last())) by {
                assert(front.last() == front[front.len() - 1]);
            }
            let acc = join(front, slash());
            assert(acc.last() == front.last().last());
            assert(front.last().last() != '/') by {
                let l = front.last();
                if l.last() == '/' {
                    assert(l[l.len() - 1] == '/');
                    assert(l.contains('/'));
                }
            }
        } else {
            assert(ns =~= seq![x]);
        }
    } else {
        assert(cs =~= Seq::<Comp>::empty());
    }
}

pub proof fn lemma_join_last(ns: Seq<Seq<char>>)
    requires
        ns.len() > 0,
        ns.last().len() > 0,
    ensures
        join(ns, slash()).len() > 0,
        join(ns, slash()).last() == ns.last().last(),
{
}

/// The normal components' names of names are those names.
pub proof fn lemma_normals_names(ns: Seq<Seq<char>>)
    ensures
        normals(ns.map_values(|n: Seq<char>| Comp::Normal(n))) == ns,
    decreases ns.len(),
{
    let cs = ns.map_values(|n: Seq<char>| Comp::Normal(n));
    if ns.len() > 0 {
        lemma_normals_names(ns.drop_last());
        assert(cs.drop_last() =~= ns.drop_last().map_values(|n: Seq<char>| Comp::Normal(n)));
        assert(ns.drop_last().push(ns.last()) =~= ns);
    } else {
        assert(ns =~= Seq::<Seq<char>>::empty());
    }
}

/// Joining two non-empty runs is joining each and putting the separator
/// between.
pub proof fn lemma_join_concat(a: Seq<Seq<char>>, b: Seq<Seq<char>>, sep: Seq<char>)
    requires
        a.len() > 0,
        b.len() > 0,
    ensures
        join(a + b, sep) == join(a, sep) + sep + join(b, sep),
    decreases b.len(),
{
    if b.len() == 1 {
        assert((a + b).drop_last() =~= a);
        assert((a + b).last() == b[0]);
    } else {
        lemma_join_concat(a, b.drop_last(), sep);
        assert((a + b).drop_last() =~= a + b.drop_last());
        assert((a + b).last() == b.last());
        assert(join(a + b, sep) == join(a + b.drop_last(), sep) + sep + b.last());
        assert(join(b, sep) == join(b.drop_last(), sep) + sep + b.last());
        assert(join(a, sep) + sep + join(b.drop_last(), sep) + sep + b.last() =~= join(a, sep) + sep + (join(b.drop_last(), sep) + sep
            + b.last()));
    }
}

/// Components of concatenated segment runs concatenate.
pub proof fn lemma_seg_comps_concat(a: Seq<Seq<char>>, b: Seq<Seq<char>>)
    ensures
        seg_comps(a + b) == seg_comps(a) + seg_comps(b),
    decreases b.len(),
{
    if b.len() == 0 {
        assert(a + b =~= a);
        assert(seg_comps(a) + seg_comps(b) =~= seg_comps(a));
    } else {
        lemma_seg_comps_concat(a, b.drop_last());
        assert((a + b).drop_last() =~= a + b.drop_last());
        assert((a + b).last() == b.last());
        match seg_comp(b.last()) {
            Some(c) => {
                assert(seg_comps(a) + seg_comps(b.drop_last()).push(c) =~= (seg_comps(a) + seg_comps(b.drop_last())).push(c));
            },
            None => {},
        }
    }
}

/// Names are their own components.
pub proof fn lemma_seg_comps_of_names(ns: Seq<Seq<char>>)
    requires
        forall|i: int| 0 <= i < ns.len() ==> is_name(#[trigger] ns[i]),
    ensures
        seg_comps(ns) == ns.map_values(|n: Seq<char>| Comp::Normal(n)),
{
    lemma_seg_comps_names(ns);
}

/// One more component: what [`norm_stack`] does with it.
pub proof fn lemma_norm_stack_push(cs: Seq<Comp>, c: Comp)
    ensures
        norm_stack(cs.push(c)) == match norm_stack(cs) {
            None => None,
            Some(st) => match c {
                Comp::Root => None,
                Comp::Cur => Some(st),
                Comp::Parent => if st.len() == 0 {
                    None
                } else {
                    Some(st.drop_last())
                },
                Comp::Normal(s) => Some(st.push(s)),
            },
        },
{
    assert(cs.push(c).drop_last() =~= cs);
}

/// A leading `.` does not change the normalization.
pub proof fn lemma_norm_stack_cur(x: Seq<Comp>)
    ensures
        norm_stack(seq![Comp::Cur] + x) == norm_stack(x),
    decreases x.len(),
{
    if x.len() == 0 {
        assert(seq![Comp::Cur] + x =~= Seq::<Comp>::empty().push(Comp::Cur));
        lemma_norm_stack_push(Seq::<Comp>::empty(), Comp::Cur);
        assert(x =~= Seq::<Comp>::empty());
    } else {
        lemma_norm_stack_cur(x.drop_last());
        assert(seq![Comp::Cur] + x =~= (seq![Comp::Cur] + x.drop_last()).push(x.last()));
        lemma_norm_stack_push(seq![Comp::Cur] + x.drop_last(), x.last());
        assert(x =~= x.drop_last().push(x.last()));
        lemma_norm_stack_push(x.drop_last(), x.last());
    }
}

} // verus!

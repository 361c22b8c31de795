//! Java move planning: the package/directory-coupled flavour of
//! [`super::plan_move`].
//!
//! A Java move is three coordinated edits: the moved file's `package`
//! declaration, every `import <fqn>` that resolves to the moved class, and
//! the physical move itself (apply layer).
//!
//! The new package is derived through the *source root* — the directory
//! the old package is relative to (`src/main/java`, `src`, ...). Importers
//! speak absolute FQNs, so unlike TS no per-importer relative math is
//! needed.

use vstd::prelude::*;

use crate::engine::index::{targets_file, Index, ResolvedImport};
use crate::engine::plan::{rewrites_are, Rewrite, RewriteView};
use crate::engine::{concat3, JmoveError, JmoveResult};

use crate::path::{comp_text, comp_views, comps, comps_prefix, component_text, components, components_prefix, components_slice, extension, extension_of, file_stem, file_stem_of, join, parent, parent_of, path_of, path_text, views, Comp, Component};
use crate::text::{chars_eq, chars_of, chars_starts_with, extend_chars, push_str, str_eq, string_of};

verus! {

/// The directory part of a path (empty when it has none).
pub open spec fn dir_of(p: Seq<char>) -> Seq<char> {
    match parent_of(p) {
        Some(d) => d,
        None => Seq::empty(),
    }
}

/// Occurrences of `c` in `s`.
pub open spec fn count_char(s: Seq<char>, c: char) -> nat
    decreases s.len(),
{
    if s.len() == 0 {
        0
    } else {
        count_char(s.drop_last(), c) + if s.last() == c { 1nat } else { 0nat }
    }
}

/// Number of `.`-separated segments of a package name.
pub open spec fn segment_count(pkg: Seq<char>) -> nat {
    count_char(pkg, '.') + 1
}

/// The package name as a relative directory: dots become slashes.
pub open spec fn dots_to_slashes(pkg: Seq<char>) -> Seq<char> {
    pkg.map_values(|c: char| if c == '.' { '/' } else { c })
}

/// `suf` is a suffix of `cs`.
pub open spec fn comps_suffix(suf: Seq<Comp>, cs: Seq<Comp>) -> bool {
    suf.len() <= cs.len() && cs.subrange(cs.len() - suf.len(), cs.len() as int) == suf
}

/// The source root: the file's directory minus one component per package
/// segment. A package with more segments than the directory has
/// components (only possible with empty segments) keeps the whole
/// directory, as the unchecked arithmetic of release builds does.
pub open spec fn src_root_of(sdir: Seq<char>, pkg: Seq<char>) -> Seq<Comp> {
    let cs = comps(sdir);
    let n = segment_count(pkg);
    if n <= cs.len() {
        cs.take(cs.len() - n)
    } else {
        cs
    }
}

/// A component run as a dotted package name.
pub open spec fn package_text(cs: Seq<Comp>) -> Seq<char> {
    join(cs.map_values(|c: Comp| comp_text(c)), "."@)
}

/// Swap the class-FQN prefix inside an import specifier; member imports
/// (`com.example.Parser.parse` from `import static`) keep their member part.
pub open spec fn rewrite_fqn_of(old_fqn: Seq<char>, new_fqn: Seq<char>, specifier: Seq<char>) -> Seq<char> {
    if old_fqn.len() < specifier.len() && specifier.subrange(0, old_fqn.len() as int) == old_fqn
        && specifier[old_fqn.len() as int] == '.' {
        new_fqn + specifier.subrange(old_fqn.len() as int, specifier.len() as int)
    } else {
        new_fqn
    }
}

/// The FQN rewrites of one importer's edges to `source`, in edge order.
pub open spec fn java_edge_rewrites(importer: Seq<char>, es: Seq<ResolvedImport>, source: Seq<char>, old_fqn: Seq<char>, new_fqn: Seq<char>) -> Seq<RewriteView>
    decreases es.len(),
{
    if es.len() == 0 {
        Seq::empty()
    } else {
        let rest = java_edge_rewrites(importer, es.drop_last(), source, old_fqn, new_fqn);
        let e = es.last();
        let nt = rewrite_fqn_of(old_fqn, new_fqn, e.record.specifier@);
        if targets_file(e, source) && nt != e.record.specifier@ {
            rest.push((importer, e.record.span.start as int, e.record.span.end as int, e.record.specifier@, nt))
        } else {
            rest
        }
    }
}

/// The FQN rewrites over every importer entry, in entry order.
pub open spec fn java_all_rewrites(entries: Seq<(String, Vec<ResolvedImport>)>, source: Seq<char>, old_fqn: Seq<char>, new_fqn: Seq<char>) -> Seq<RewriteView>
    decreases entries.len(),
{
    if entries.len() == 0 {
        Seq::empty()
    } else {
        java_all_rewrites(entries.drop_last(), source, old_fqn, new_fqn)
            + java_edge_rewrites(entries.last().0@, entries.last().1@, source, old_fqn, new_fqn)
    }
}

/// The FQN rewrite when every check passes: the package declaration (if
/// the package changes) plus every importer edge.
pub open spec fn java_expected(index: Index, s: Seq<char>, t: Seq<char>) -> Seq<RewriteView> {
    let decl = index.packages@[s];
    let pkg = decl.name@;
    let root = src_root_of(dir_of(s), pkg);
    let tc = comps(dir_of(t));
    let new_pkg = package_text(tc.subrange(root.len() as int, tc.len() as int));
    let own: Seq<RewriteView> = if new_pkg != pkg {
        seq![(s, decl.span.start as int, decl.span.end as int, pkg, new_pkg)]
    } else {
        Seq::empty()
    };
    let old_fqn = pkg + "."@ + file_stem_of(s)->0;
    let new_fqn = new_pkg + "."@ + file_stem_of(t)->0;
    own + java_all_rewrites(index.imports.entries_spec(), s, old_fqn, new_fqn)
}

/// Why a Java move of `s` to `t` is refused, if it is: `Some(err)` with
/// the error the planner returns.
pub open spec fn java_refusal(index: Index, s: Seq<char>, t: Seq<char>) -> Option<(bool, Seq<char>)> {
    if extension_of(t) != Some("java"@) {
        Some((true, "Java move: "@ + ("'"@ + s + "' is a .java file, the target must keep the .java extension"@)))
    } else if !index.packages@.contains_key(s) {
        if comps(dir_of(s)) == comps(dir_of(t)) {
            None
        } else {
            Some((true, "Java move: "@ + ("'"@ + s
                + "' has no `package` declaration (default package); it can only be renamed inside its directory"@)))
        }
    } else {
        let pkg = index.packages@[s].name@;
        let sdir = dir_of(s);
        let tdir = dir_of(t);
        if !comps_suffix(comps(dots_to_slashes(pkg)), comps(sdir)) {
            Some((true, "Java move: "@ + ("package '"@ + pkg + "' does not match directory '"@ + sdir + "'"@)))
        } else {
            let root = src_root_of(sdir, pkg);
            let tc = comps(tdir);
            if !comps_prefix(root, tc) {
                Some((true, "Java move: "@ + ("target directory '"@ + tdir + "' is outside the Java source root '"@
                    + path_of(root) + "'"@)))
            } else if package_text(tc.subrange(root.len() as int, tc.len() as int)).len() == 0 {
                Some((true, "Java move: "@ + "the target directory maps to the default package; importers could not reference the class"@))
            } else if file_stem_of(s) is None {
                Some((false, "invalid file name '"@ + s + "'"@))
            } else if file_stem_of(t) is None {
                Some((false, "invalid file name '"@ + t + "'"@))
            } else {
                None
            }
        }
    }
}

/// `r` is the error `refusal` describes: a plan rejection (`true`) or an
/// invalid argument (`false`) with that message.
pub open spec fn is_refusal(r: JmoveError, refusal: (bool, Seq<char>)) -> bool {
    if refusal.0 {
        r matches JmoveError::PlanRejected(m) && m@ == refusal.1
    } else {
        r matches JmoveError::InvalidArgument(m) && m@ == refusal.1
    }
}

/// What [`java_rewrites`] answers for moving `s.java` to `t`.
pub open spec fn java_rewrites_are(index: Index, s: Seq<char>, t: Seq<char>, r: JmoveResult<Vec<Rewrite>>) -> bool {
    match java_refusal(index, s, t) {
        Some(refusal) => r matches Err(e) && is_refusal(e, refusal),
        None => if !index.packages@.contains_key(s) {
            r matches Ok(rw) && rw@.len() == 0
        } else {
            r matches Ok(rw) && rewrites_are(rw@, java_expected(index, s, t))
        },
    }
}

// `"Java move: " + m` as a plan rejection.
fn rejected(m: String) -> (r: JmoveError)
    ensures
        r matches JmoveError::PlanRejected(x) && x@ == "Java move: "@ + m@,
{
    let mut x = String::from_str("Java move: ");
    push_str(&mut x, m.as_str());
    JmoveError::PlanRejected(x)
}

// `a + b + c` as a new string.
fn cat3(a: &str, b: &str, c: &str) -> (r: String)
    ensures
        r@ == a@ + b@ + c@,
{
    concat3(a, b, c)
}

// The directory text of a path.
fn dir_text(p: &str) -> (r: String)
    ensures
        r@ == dir_of(p@),
{
    match parent(p) {
        Some(d) => string_of(d.as_slice()),
        None => String::new(),
    }
}

/// Whether two paths have the same components (`Path` equality).
pub fn same_path(a: &str, b: &str) -> (r: bool)
    ensures
        r == (comps(a@) == comps(b@)),
{
    let ca = components(a);
    let cb = components(b);
    if ca.len() != cb.len() {
        return false;
    }
    let ok = components_prefix(ca.as_slice(), cb.as_slice());
    assert(comp_views(cb@).subrange(0, comp_views(ca@).len() as int) =~= comp_views(cb@));
    ok
}

/// Rewrite set for moving `source.java` to `target.java` (both
/// project-relative, validated by the caller).
pub fn java_rewrites(index: &Index, source: &str, target: &str) -> (r: JmoveResult<Vec<Rewrite>>)
    ensures
        java_rewrites_are(*index, source@, target@, r),
{
    proof {
        reveal_strlit("java");
        reveal_strlit("'");
        reveal_strlit("' is a .java file, the target must keep the .java extension");
        reveal_strlit("' has no `package` declaration (default package); it can only be renamed inside its directory");
        reveal_strlit("package '");
        reveal_strlit("' does not match directory '");
        reveal_strlit("target directory '");
        reveal_strlit("' is outside the Java source root '");
        reveal_strlit("the target directory maps to the default package; importers could not reference the class");
        reveal_strlit("invalid file name '");
        reveal_strlit(".");
    }
    let ext_ok = match extension(target) {
        Some(e) => chars_eq(e.as_slice(), chars_of("java").as_slice()),
        None => false,
    };
    if !ext_ok {
        return Err(rejected(cat3("'", source, "' is a .java file, the target must keep the .java extension")));
    }
    let sdir = dir_text(source);
    let tdir = dir_text(target);
    let decl = match index.packages.get(source) {
        Some(d) => d,
        None => {
            if same_path(sdir.as_str(), tdir.as_str()) {
                return Ok(Vec::new());
            }
            return Err(rejected(cat3("'", source,
                "' has no `package` declaration (default package); it can only be renamed inside its directory")));
        },
    };
    let pkg = decl.name.as_str();
    let pkg_path = dots_as_slashes(pkg);
    let sc = components(sdir.as_str());
    let pc = components(pkg_path.as_str());
    if !components_suffix(pc.as_slice(), sc.as_slice()) {
        let mut m = String::from_str("package '");
        push_str(&mut m, pkg);
        push_str(&mut m, "' does not match directory '");
        push_str(&mut m, sdir.as_str());
        push_str(&mut m, "'");
        return Err(rejected(m));
    }
    let dots = dot_count(pkg);
    let keep = if dots < sc.len() { sc.len() - dots - 1 } else { sc.len() };
    let root = components_slice(sc.as_slice(), 0, keep);
    assert(comp_views(root@) == src_root_of(sdir@, pkg@)) by {
        assert(comp_views(sc@).subrange(0, keep as int) =~= comp_views(sc@).take(keep as int));
        if dots + 1 > sc.len() {
            assert(comp_views(sc@).subrange(0, sc@.len() as int) =~= comp_views(sc@));
        }
    }
    let tc = components(tdir.as_str());
    if !components_prefix(root.as_slice(), tc.as_slice()) {
        let mut m = String::from_str("target directory '");
        push_str(&mut m, tdir.as_str());
        push_str(&mut m, "' is outside the Java source root '");
        let rt = string_of(path_text(root.as_slice()).as_slice());
        push_str(&mut m, rt.as_str());
        push_str(&mut m, "'");
        return Err(rejected(m));
    }
    let rest = components_slice(tc.as_slice(), root.len(), tc.len());
    let new_pkg = package_name_of(rest.as_slice());
    if new_pkg.as_str().is_empty() {
        return Err(rejected(String::from_str("the target directory maps to the default package; importers could not reference the class")));
    }
    let stem_old = match file_stem(source) {
        Some(s) => s,
        None => return Err(JmoveError::InvalidArgument(concat3("invalid file name '", source, "'"))),
    };
    let stem_new = match file_stem(target) {
        Some(s) => s,
        None => return Err(JmoveError::InvalidArgument(concat3("invalid file name '", target, "'"))),
    };
    let old_fqn = concat3(pkg, ".", string_of(stem_old.as_slice()).as_str());
    let new_fqn = concat3(new_pkg.as_str(), ".", string_of(stem_new.as_slice()).as_str());
    let mut out: Vec<Rewrite> = Vec::new();
    if !str_eq(new_pkg.as_str(), pkg) {
        out.push(Rewrite {
            file: String::from_str(source),
            span: decl.span.start..decl.span.end,
            old_text: String::from_str(pkg),
            new_text: new_pkg.clone(),
        });
    }
    let ghost own = crate::engine::plan::rewrite_views(out@);
    proof {
        let sp = source@;
        let d = index.packages@[sp];
        let rootc = src_root_of(dir_of(sp), d.name@);
        let tcs = comps(dir_of(target@));
        assert(comp_views(root@).len() == root@.len());
        assert(new_pkg@ == package_text(tcs.subrange(rootc.len() as int, tcs.len() as int)));
        assert(old_fqn@ == d.name@ + "."@ + file_stem_of(sp)->0);
        assert(new_fqn@ == new_pkg@ + "."@ + file_stem_of(target@)->0);
        if new_pkg@ != pkg@ {
            assert(own =~= seq![(sp, d.span.start as int, d.span.end as int, d.name@, new_pkg@)]);
        } else {
            assert(own =~= Seq::<RewriteView>::empty());
        }
    }
    index.imports.view_facts();
    let entries = index.imports.entries();
    let ghost e = entries@;
    let mut i: usize = 0;
    while i < entries.len()
        invariant
            i <= e.len(),
            e == entries@,
            e == index.imports.entries_spec(),
            crate::engine::plan::rewrite_views(out@) == own + java_all_rewrites(e.take(i as int), source@, old_fqn@, new_fqn@),
        decreases e.len() - i,
    {
        let importer = &entries[i].0;
        let edges = &entries[i].1;
        let ghost base = crate::engine::plan::rewrite_views(out@);
        let mut j: usize = 0;
        while j < edges.len()
            invariant
                i < e.len(),
                j <= edges@.len(),
                importer == &e[i as int].0,
                edges@ == e[i as int].1@,
                crate::engine::plan::rewrite_views(out@) == base + java_edge_rewrites(importer@, edges@.take(j as int), source@, old_fqn@, new_fqn@),
            decreases edges.len() - j,
        {
            let edge = &edges[j];
            assert(edges@.take(j + 1).drop_last() =~= edges@.take(j as int));
            assert(edges@.take(j + 1).last() == edge);
            let hits = match &edge.target {
                Some(t) => str_eq(t.as_str(), source),
                None => false,
            };
            if hits {
                let new_text = rewrite_fqn(old_fqn.as_str(), new_fqn.as_str(), edge.record.specifier.as_str());
                if !str_eq(new_text.as_str(), edge.record.specifier.as_str()) {
                    let ghost before = out@;
                    out.push(Rewrite {
                        file: importer.clone(),
                        span: edge.record.span.start..edge.record.span.end,
                        old_text: edge.record.specifier.clone(),
                        new_text,
                    });
                    assert(crate::engine::plan::rewrite_views(out@)
                        =~= crate::engine::plan::rewrite_views(before).push(out@.last().view_of()));
                }
            }
            j += 1;
        }
        assert(edges@.take(edges@.len() as int) =~= edges@);
        assert(e.take(i + 1).drop_last() =~= e.take(i as int));
        assert(e.take(i + 1).last() == e[i as int]);
        i += 1;
    }
    assert(e.take(e.len() as int) =~= e);
    let ghost unsorted = out@;
    let r = crate::order::sort_stable(out);
    proof {
        crate::order::lemma_map_multiset(r@, unsorted, |x: Rewrite| x.view_of());
    }
    Ok(r)
}

// `pkg` with every `.` replaced by `/`.
fn dots_as_slashes(pkg: &str) -> (r: String)
    ensures
        r@ == dots_to_slashes(pkg@),
{
    let cs = chars_of(pkg);
    let mut out: Vec<char> = Vec::new();
    let mut i: usize = 0;
    while i < cs.len()
        invariant
            i <= cs@.len(),
            cs@ == pkg@,
            out@ == dots_to_slashes(pkg@).take(i as int),
        decreases cs.len() - i,
    {
        let c = cs[i];
        out.push(if c == '.' { '/' } else { c });
        i += 1;
        assert(out@ =~= dots_to_slashes(pkg@).take(i as int));
    }
    assert(dots_to_slashes(pkg@).take(cs@.len() as int) =~= dots_to_slashes(pkg@));
    string_of(out.as_slice())
}

// Number of `.` in `pkg`.
fn dot_count(pkg: &str) -> (r: usize)
    ensures
        r + 1 == segment_count(pkg@),
{
    let cs = chars_of(pkg);
    let mut n: usize = 0;
    let mut i: usize = 0;
    while i < cs.len()
        invariant
            i <= cs@.len(),
            cs@ == pkg@,
            n == count_char(pkg@.take(i as int), '.'),
            n <= i,
        decreases cs.len() - i,
    {
        assert(pkg@.take(i + 1).drop_last() =~= pkg@.take(i as int));
        if cs[i] == '.' {
            n += 1;
        }
        i += 1;
    }
    assert(pkg@.take(cs@.len() as int) =~= pkg@);
    n
}

// Whether the component run `suf` ends `cs`.
fn components_suffix(suf: &[Component], cs: &[Component]) -> (r: bool)
    ensures
        r == comps_suffix(comp_views(suf@), comp_views(cs@)),
{
    if suf.len() > cs.len() {
        return false;
    }
    let off = cs.len() - suf.len();
    let mut i: usize = 0;
    while i < suf.len()
        invariant
            off + suf@.len() == cs@.len(),
            i <= suf@.len(),
            forall|j: int| 0 <= j < i ==> comp_views(suf@)[j] == comp_views(cs@)[off + j],
        decreases suf.len() - i,
    {
        let at = cs.len() - (suf.len() - i);
        assert(at == off + i);
        if !crate::path::component_eq(&suf[i], &cs[at]) {
            assert(comp_views(cs@).subrange(off as int, cs@.len() as int)[i as int] != comp_views(suf@)[i as int]);
            return false;
        }
        i += 1;
    }
    assert(comp_views(cs@).subrange(off as int, cs@.len() as int) =~= comp_views(suf@));
    true
}

// A component run as a dotted package name.
fn package_name_of(cs: &[Component]) -> (r: String)
    ensures
        r@ == package_text(comp_views(cs@)),
{
    let mut parts: Vec<Vec<char>> = Vec::new();
    let mut i: usize = 0;
    while i < cs.len()
        invariant
            i <= cs@.len(),
            views(parts@) == comp_views(cs@).take(i as int).map_values(|c: Comp| comp_text(c)),
        decreases cs.len() - i,
    {
        let ghost prev = views(parts@);
        parts.push(component_text(&cs[i]));
        assert(views(parts@) =~= prev.push(comp_text(comp_views(cs@)[i as int])));
        i += 1;
        assert(views(parts@) =~= comp_views(cs@).take(i as int).map_values(|c: Comp| comp_text(c)));
    }
    assert(comp_views(cs@).take(cs@.len() as int) =~= comp_views(cs@));
    let dot = chars_of(".");
    proof {
        reveal_strlit(".");
    }
    let joined = crate::path::join_chars(parts.as_slice(), dot.as_slice());
    string_of(joined.as_slice())
}

/// Swap the class-FQN prefix inside an import specifier (see
/// [`rewrite_fqn_of`]).
pub fn rewrite_fqn(old_fqn: &str, new_fqn: &str, specifier: &str) -> (r: String)
    ensures
        r@ == rewrite_fqn_of(old_fqn@, new_fqn@, specifier@),
{
    let o = chars_of(old_fqn);
    let s = chars_of(specifier);
    if o.len() < s.len() && chars_starts_with(s.as_slice(), o.as_slice()) && s[o.len()] == '.' {
        let mut out = chars_of(new_fqn);
        let tail = crate::text::chars_slice(s.as_slice(), o.len(), s.len());
        extend_chars(&mut out, tail.as_slice());
        string_of(out.as_slice())
    } else {
        String::from_str(new_fqn)
    }
}

} // verus!

verus! {

/// Swapping a class FQN prefix and swapping it back restores every import
/// of that class: the class import itself and its member imports.
pub proof fn law_fqn_swap_round_trip(old_fqn: Seq<char>, new_fqn: Seq<char>, specifier: Seq<char>)
    requires
        specifier == old_fqn || (old_fqn.len() < specifier.len() && specifier.subrange(0, old_fqn.len() as int) == old_fqn
            && specifier[old_fqn.len() as int] == '.'),
    ensures
        rewrite_fqn_of(new_fqn, old_fqn, rewrite_fqn_of(old_fqn, new_fqn, specifier)) == specifier,
{
    if specifier != old_fqn {
        let member = specifier.subrange(old_fqn.len() as int, specifier.len() as int);
        let moved = new_fqn + member;
        assert(rewrite_fqn_of(old_fqn, new_fqn, specifier) == moved);
        assert(moved.subrange(0, new_fqn.len() as int) =~= new_fqn);
        assert(moved[new_fqn.len() as int] == member[0]);
        assert(moved.subrange(new_fqn.len() as int, moved.len() as int) =~= member);
        assert(old_fqn + member =~= specifier);
    }
}

} // verus!

verus! {

proof fn lemma_dots_to_slashes_join(ns: Seq<Seq<char>>)
    requires
        ns.len() > 0,
        forall|i: int| 0 <= i < ns.len() ==> !(#[trigger] ns[i]).contains('.'),
    ensures
        dots_to_slashes(join(ns, "."@)) == join(ns, crate::path::slash()),
    decreases ns.len(),
{
    reveal_strlit(".");
    let f = |c: char| if c == '.' { '/' } else { c };
    let last = ns.last();
    assert(!last.contains('.')) by {
        assert(last == ns[ns.len() - 1]);
    }
    assert(last.map_values(f) =~= last) by {
        assert forall|k: int| 0 <= k < last.len() implies last[k] != '.' by {
            if last[k] == '.' {
                assert(last.contains('.'));
            }
        }
    }
    if ns.len() > 1 {
        let front = ns.drop_last();
        assert forall|i: int| 0 <= i < front.len() implies !(#[trigger] front[i]).contains('.') by {
            assert(front[i] == ns[i]);
        }
        lemma_dots_to_slashes_join(front);
        let a = join(front, "."@);
        assert(join(ns, "."@) == a + "."@ + last);
        assert((a + "."@ + last).map_values(f) =~= a.map_values(f) + "."@.map_values(f) + last.map_values(f));
        assert("."@.map_values(f) =~= crate::path::slash());
    }
}

/// A Java move keeps each package declaration in line with its
/// directory: the package the moved file gets, written as a directory,
/// is exactly the target's directories below the source root, so the
/// file passes the package/directory check at its new place. (Directory
/// names holding a `.` cannot be written as package segments.)
pub proof fn law_new_package_matches_target_directory(tdir: Seq<char>, root: Seq<Comp>)
    requires
        comps_prefix(root, comps(tdir)),
        root.len() < comps(tdir).len(),
        forall|i: int| root.len() <= i < comps(tdir).len() ==> (#[trigger] comps(tdir)[i] matches Comp::Normal(n) && !n.contains('.')),
    ensures
        comps_suffix(
            comps(dots_to_slashes(package_text(comps(tdir).subrange(root.len() as int, comps(tdir).len() as int)))),
            comps(tdir),
        ),
{
    let tc = comps(tdir);
    let tail = tc.subrange(root.len() as int, tc.len() as int);
    crate::path::lemma_comps_names(tdir);
    let ns = tail.map_values(|c: Comp| comp_text(c));
    assert forall|i: int| 0 <= i < ns.len() implies crate::path::is_name(#[trigger] ns[i]) && !ns[i].contains('.') by {
        assert(tail[i] == tc[root.len() + i]);
    }
    assert forall|i: int| 0 <= i < ns.len() implies !(#[trigger] ns[i]).contains('.') by {}
    lemma_dots_to_slashes_join(ns);
    crate::path::lemma_comps_join(ns);
    assert(ns.map_values(|n: Seq<char>| Comp::Normal(n)) =~= tail) by {
        assert forall|i: int| 0 <= i < tail.len() implies ns.map_values(|n: Seq<char>| Comp::Normal(n))[i] == tail[i] by {
            assert(tail[i] == tc[root.len() + i]);
        }
    }
    assert(tc.subrange(tc.len() - tail.len(), tc.len() as int) =~= tail);
}

} // verus!

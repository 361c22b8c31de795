//! Pure specifier arithmetic: TS module-stem conventions and directory
//! component math.

use vstd::prelude::*;

use crate::parser::resolve::{base_candidates, first_member, resolve_module_spec};
use crate::path::{
    comp_text, comps, dir_names, dir_parts, dotdot, file_name, file_name_of, is_name, join, join_chars, join_path, norm_stack, normalized,
    parent_of, path_of, seg_comp, seg_comps, segs, slash, views, Comp,
};
use crate::text::{chars_eq, chars_ends_with, chars_of, chars_slice, extend_chars, rfind_char, string_of};

verus! {

/// Index of the last `c` in `s`.
pub open spec fn last_index_of(s: Seq<char>, c: char) -> Option<int>
    decreases s.len(),
{
    if s.len() == 0 {
        None
    } else if s.last() == c {
        Some(s.len() - 1)
    } else {
        last_index_of(s.drop_last(), c)
    }
}

pub proof fn lemma_last_index_of(s: Seq<char>, c: char)
    ensures
        match last_index_of(s, c) {
            Some(k) => 0 <= k < s.len() && s[k] == c && forall|j: int| k < j < s.len() ==> s[j] != c,
            None => forall|j: int| 0 <= j < s.len() ==> s[j] != c,
        },
    decreases s.len(),
{
    if s.len() > 0 && s.last() != c {
        let t = s.drop_last();
        lemma_last_index_of(t, c);
        assert forall|j: int| 0 <= j < t.len() implies t[j] == s[j] by {}
    }
}

/// The extensions a TS/JS module specifier leaves off.
pub open spec fn is_module_ext(e: Seq<char>) -> bool {
    e == "ts"@ || e == "tsx"@ || e == "js"@ || e == "jsx"@ || e == "mjs"@ || e == "cjs"@
}

/// Module stem of a file name: `x.d.ts` -> `x`, `x.ts` -> `x`; an unknown
/// or missing extension is kept, and `index` is never stripped.
pub open spec fn module_stem_of(name: Seq<char>) -> Seq<char> {
    if name.len() >= 5 && name.subrange(name.len() - 5, name.len() as int) == ".d.ts"@ {
        name.subrange(0, name.len() - 5)
    } else {
        match last_index_of(name, '.') {
            Some(k) => if is_module_ext(name.subrange(k + 1, name.len() as int)) {
                name.subrange(0, k)
            } else {
                name
            },
            None => name,
        }
    }
}

/// Length of the longest common prefix of two name sequences.
pub open spec fn common_len(a: Seq<Seq<char>>, b: Seq<Seq<char>>) -> nat
    decreases a.len(),
{
    if a.len() == 0 || b.len() == 0 || a[0] != b[0] {
        0
    } else {
        1 + common_len(a.drop_first(), b.drop_first())
    }
}

/// The relative specifier from `importer`'s directory to `target`.
pub open spec fn relative_spec(importer: Seq<char>, target: Seq<char>) -> Seq<char> {
    let name = match file_name_of(target) {
        Some(n) => n,
        None => Seq::<char>::empty(),
    };
    let dirs = dir_names(importer);
    let mdirs = dir_names(target);
    let common = common_len(dirs, mdirs);
    let up = dirs.len() - common;
    let parts = Seq::new(up as nat, |i: int| dotdot()) + mdirs.subrange(common as int, mdirs.len() as int)
        + seq![module_stem_of(name)];
    if up > 0 {
        join(parts, slash())
    } else {
        "./"@ + join(parts, slash())
    }
}

fn is_module_extension(e: &[char]) -> (r: bool)
    ensures
        r == is_module_ext(e@),
{
    chars_eq(e, chars_of("ts").as_slice()) || chars_eq(e, chars_of("tsx").as_slice())
        || chars_eq(e, chars_of("js").as_slice()) || chars_eq(e, chars_of("jsx").as_slice())
        || chars_eq(e, chars_of("mjs").as_slice()) || chars_eq(e, chars_of("cjs").as_slice())
}

/// The module stem of file name `name` (see [`module_stem_of`]).
pub fn module_stem(name: &[char]) -> (r: Vec<char>)
    ensures
        r@ == module_stem_of(name@),
{
    let dts = chars_of(".d.ts");
    proof {
        reveal_strlit(".d.ts");
    }
    if chars_ends_with(name, dts.as_slice()) {
        return chars_slice(name, 0, name.len() - 5);
    }
    proof {
        lemma_last_index_of(name@, '.');
    }
    match rfind_char(name, '.') {
        Some(k) => {
            assert(last_index_of(name@, '.') == Some(k as int));
            assert(k < name.len());
            let ext = chars_slice(name, k + 1, name.len());
            if is_module_extension(ext.as_slice()) {
                chars_slice(name, 0, k)
            } else {
                chars_slice(name, 0, name.len())
            }
        },
        None => {
            assert(last_index_of(name@, '.') is None);
            chars_slice(name, 0, name.len())
        },
    }
}

/// Compute the TS/JS relative specifier from `importer`'s directory to
/// `target`, prefixed with `./` or `../` as needed. Extension stripping
/// follows TS module-resolution convention: `.ts`/`.tsx`/`.js`/`.jsx`/
/// `.mjs`/`.cjs` (and `.d.ts`) are removed from file targets.
pub fn relative_specifier(importer: &str, target: &str) -> (r: String)
    ensures
        r@ == relative_spec(importer@, target@),
{
    let name = match file_name(target) {
        Some(n) => n,
        None => Vec::new(),
    };
    let stem = module_stem(name.as_slice());
    let dirs = dir_parts(importer);
    let mdirs = dir_parts(target);
    let mut common: usize = 0;
    assert(views(dirs@).subrange(0, dirs@.len() as int) =~= views(dirs@));
    assert(views(mdirs@).subrange(0, mdirs@.len() as int) =~= views(mdirs@));
    while common < dirs.len() && common < mdirs.len() && chars_eq(dirs[common].as_slice(), mdirs[common].as_slice())
        invariant
            common <= dirs@.len(),
            common <= mdirs@.len(),
            common_len(views(dirs@), views(mdirs@)) == common + common_len(
                views(dirs@).subrange(common as int, dirs@.len() as int),
                views(mdirs@).subrange(common as int, mdirs@.len() as int),
            ),
        decreases dirs.len() - common,
    {
        let ghost a = views(dirs@).subrange(common as int, dirs@.len() as int);
        let ghost b = views(mdirs@).subrange(common as int, mdirs@.len() as int);
        assert(a.drop_first() =~= views(dirs@).subrange(common + 1, dirs@.len() as int));
        assert(b.drop_first() =~= views(mdirs@).subrange(common + 1, mdirs@.len() as int));
        common += 1;
    }
    proof {
        let a = views(dirs@).subrange(common as int, dirs@.len() as int);
        let b = views(mdirs@).subrange(common as int, mdirs@.len() as int);
        assert(common_len(a, b) == 0);
    }
    let up = dirs.len() - common;
    let mut parts: Vec<Vec<char>> = Vec::new();
    let mut k: usize = 0;
    while k < up
        invariant
            k <= up,
            views(parts@) == Seq::new(k as nat, |i: int| dotdot()),
        decreases up - k,
    {
        let mut dd = Vec::new();
        dd.push('.');
        dd.push('.');
        assert(dd@ =~= dotdot());
        let ghost prev = views(parts@);
        parts.push(dd);
        assert(views(parts@) =~= prev.push(dotdot()));
        k += 1;
        assert(views(parts@) =~= Seq::new(k as nat, |i: int| dotdot()));
    }
    let ghost head = views(parts@);
    let mut j = common;
    while j < mdirs.len()
        invariant
            common <= j <= mdirs@.len(),
            views(parts@) == head + views(mdirs@).subrange(common as int, j as int),
        decreases mdirs.len() - j,
    {
        let ghost prev = views(parts@);
        parts.push(mdirs[j].clone());
        assert(views(parts@) =~= prev.push(views(mdirs@)[j as int]));
        j += 1;
        assert(views(parts@) =~= head + views(mdirs@).subrange(common as int, j as int));
    }
    let ghost mid = views(parts@);
    parts.push(stem);
    assert(views(parts@) =~= mid.push(module_stem_of(name@)));
    assert(views(parts@) =~= mid + seq![module_stem_of(name@)]);
    let sep = chars_of("/");
    proof {
        reveal_strlit("/");
    }
    assert(sep@ =~= slash());
    let joined = join_chars(parts.as_slice(), sep.as_slice());
    if up > 0 {
        string_of(joined.as_slice())
    } else {
        let mut out = chars_of("./");
        extend_chars(&mut out, joined.as_slice());
        string_of(out.as_slice())
    }
}

} // verus!

verus! {

/// The steps a specifier takes from the importer's directory: one `..`
/// per importer directory below the directories both share, then the
/// target's remaining directories, then the target's module stem.
pub open spec fn specifier_steps(importer: Seq<char>, target: Seq<char>) -> Seq<Comp> {
    let name = match file_name_of(target) {
        Some(n) => n,
        None => Seq::<char>::empty(),
    };
    let dirs = dir_names(importer);
    let mdirs = dir_names(target);
    let common = common_len(dirs, mdirs);
    Seq::new((dirs.len() - common) as nat, |i: int| Comp::Parent) + mdirs.subrange(common as int, mdirs.len() as int).map_values(
        |n: Seq<char>| Comp::Normal(n),
    ) + seq![Comp::Normal(module_stem_of(name))]
}

/// Directory names as normal components.
pub open spec fn name_comps(ns: Seq<Seq<char>>) -> Seq<Comp> {
    ns.map_values(|n: Seq<char>| Comp::Normal(n))
}

proof fn lemma_common_len(a: Seq<Seq<char>>, b: Seq<Seq<char>>)
    ensures
        common_len(a, b) <= a.len(),
        common_len(a, b) <= b.len(),
        a.take(common_len(a, b) as int) == b.take(common_len(a, b) as int),
    decreases a.len(),
{
    if a.len() == 0 || b.len() == 0 || a[0] != b[0] {
        assert(a.take(0) =~= b.take(0));
    } else {
        lemma_common_len(a.drop_first(), b.drop_first());
        let c: int = common_len(a.drop_first(), b.drop_first()) as int;
        assert(a.take(c + 1) =~= seq![a[0]] + a.drop_first().take(c));
        assert(b.take(c + 1) =~= seq![b[0]] + b.drop_first().take(c));
    }
}

proof fn lemma_norm_push(cs: Seq<Comp>, c: Comp)
    ensures
        norm_stack(cs.push(c)) == match norm_stack(cs) {
            None => None,
            Some(st) => match c {
                Comp::Root => None,
                Comp::Cur => Some(st),
                Comp::Parent => if st.len() == 0 {
                    None
                } else {
                    Some(st.drop_last())
                },
                Comp::Normal(s) => Some(st.push(s)),
            },
        },
{
    assert(cs.push(c).drop_last() =~= cs);
}

proof fn lemma_norm_names(base: Seq<Comp>, st: Seq<Seq<char>>, ns: Seq<Seq<char>>)
    requires
        norm_stack(base) == Some(st),
    ensures
        norm_stack(base + name_comps(ns)) == Some(st + ns),
    decreases ns.len(),
{
    if ns.len() == 0 {
        assert(base + name_comps(ns) =~= base);
        assert(st + ns =~= st);
    } else {
        lemma_norm_names(base, st, ns.drop_last());
        let b2 = base + name_comps(ns.drop_last());
        assert(base + name_comps(ns) =~= b2.push(Comp::Normal(ns.last())));
        lemma_norm_push(b2, Comp::Normal(ns.last()));
        assert(st + ns =~= (st + ns.drop_last()).push(ns.last()));
    }
}

proof fn lemma_norm_parents(base: Seq<Comp>, st: Seq<Seq<char>>, u: nat)
    requires
        norm_stack(base) == Some(st),
        u <= st.len(),
    ensures
        norm_stack(base + Seq::new(u, |i: int| Comp::Parent)) == Some(st.take(st.len() - u)),
    decreases u,
{
    if u == 0 {
        assert(base + Seq::new(u, |i: int| Comp::Parent) =~= base);
        assert(st.take(st.len() as int) =~= st);
    } else {
        lemma_norm_parents(base, st, (u - 1) as nat);
        let b2 = base + Seq::new((u - 1) as nat, |i: int| Comp::Parent);
        assert(base + Seq::new(u, |i: int| Comp::Parent) =~= b2.push(Comp::Parent));
        lemma_norm_push(b2, Comp::Parent);
        assert(st.take(st.len() - (u - 1)).drop_last() =~= st.take(st.len() - u));
    }
}

/// A relative specifier: it starts with `./` or `../`.
pub open spec fn starts_relative(s: Seq<char>) -> bool {
    ||| s.len() >= 2 && s.subrange(0, 2) == seq!['.', '/']
    ||| s.len() >= 3 && s.subrange(0, 3) == seq!['.', '.', '/']
}

/// The specifier computed for a move leads from the importer's directory
/// to the target: it starts with `./` or `../`, it is written as its steps
/// joined by `/` (prefixed with `./` when it does not climb), and walking
/// those steps from the importer's directories arrives at the target's
/// directories followed by the target's module stem.
pub proof fn law_specifier_reaches_target(importer: Seq<char>, target: Seq<char>)
    ensures
        starts_relative(relative_spec(importer, target)),
        relative_spec(importer, target) == (if dir_names(importer).len() > common_len(dir_names(importer), dir_names(target)) {
            Seq::<char>::empty()
        } else {
            "./"@
        }) + join(specifier_steps(importer, target).map_values(|c: Comp| comp_text(c)), slash()),
        norm_stack(name_comps(dir_names(importer)) + specifier_steps(importer, target)) == Some(
            dir_names(target).push(module_stem_of(
                match file_name_of(target) {
                    Some(n) => n,
                    None => Seq::<char>::empty(),
                },
            )),
        ),
{
    let name = match file_name_of(target) {
        Some(n) => n,
        None => Seq::<char>::empty(),
    };
    let dirs = dir_names(importer);
    let mdirs = dir_names(target);
    let common = common_len(dirs, mdirs);
    lemma_common_len(dirs, mdirs);
    let up = (dirs.len() - common) as nat;
    let steps = specifier_steps(importer, target);
    let parts = Seq::new(up, |i: int| dotdot()) + mdirs.subrange(common as int, mdirs.len() as int) + seq![module_stem_of(name)];
    assert(steps.map_values(|c: Comp| comp_text(c)) =~= parts);
    assert(starts_relative(relative_spec(importer, target))) by {
        reveal_strlit("./");
        if up == 0 {
            assert("./"@ =~= seq!['.', '/']);
            assert((("./"@) + join(parts, slash())).subrange(0, 2) =~= seq!['.', '/']);
        } else {
            let tail = parts.drop_first();
            assert(parts =~= seq![dotdot()] + tail);
            crate::path::lemma_join_concat(seq![dotdot()], tail, slash());
            assert(join(seq![dotdot()], slash()) == dotdot());
            assert((dotdot() + slash() + join(tail, slash())).subrange(0, 3) =~= seq!['.', '.', '/']);
        }
    }
    let empty_comps = Seq::<Comp>::empty();
    assert(norm_stack(empty_comps) == Some(Seq::<Seq<char>>::empty()));
    lemma_norm_names(empty_comps, Seq::empty(), dirs);
    assert(empty_comps + name_comps(dirs) =~= name_comps(dirs));
    assert(Seq::<Seq<char>>::empty() + dirs =~= dirs);
    lemma_norm_parents(name_comps(dirs), dirs, up);
    let climbed = name_comps(dirs) + Seq::new(up, |i: int| Comp::Parent);
    assert(dirs.take(dirs.len() - up) =~= dirs.take(common as int));
    let rest = mdirs.subrange(common as int, mdirs.len() as int);
    lemma_norm_names(climbed, dirs.take(common as int), rest);
    assert(dirs.take(common as int) + rest =~= mdirs);
    let walked = climbed + name_comps(rest);
    lemma_norm_push(walked, Comp::Normal(module_stem_of(name)));
    assert(name_comps(dirs) + steps =~= walked.push(Comp::Normal(module_stem_of(name))));
}

} // verus!

verus! {

/// The module base of `target`: its directories and its module stem,
/// joined by `/` (what an import of it names, extension left to
/// resolution).
pub open spec fn module_base(target: Seq<char>) -> Seq<char> {
    join(
        dir_names(target).push(module_stem_of(
            match file_name_of(target) {
                Some(n) => n,
                None => Seq::<char>::empty(),
            },
        )),
        slash(),
    )
}

/// The facts about a normalized path: its names, its directories, its
/// parent and its file name.
proof fn lemma_engine_path(p: Seq<char>) -> (st: Seq<Seq<char>>)
    requires
        normalized(p) == Some(p),
    ensures
        st.len() > 0,
        forall|i: int| 0 <= i < st.len() ==> is_name(#[trigger] st[i]),
        p == join(st, slash()),
        comps(p) == name_comps(st),
        dir_names(p) == st.drop_last(),
        parent_of(p) == Some(join(st.drop_last(), slash())),
        file_name_of(p) == Some(st.last()),
{
    crate::path::lemma_normalized_names(p);
    let st = norm_stack(comps(p))->Some_0;
    crate::path::lemma_comps_join(st);
    assert(comps(p) == name_comps(st));
    let cs = name_comps(st);
    let front = st.drop_last();
    assert(cs.drop_last() =~= name_comps(front));
    assert forall|i: int| 0 <= i < front.len() implies is_name(#[trigger] front[i]) by {
        assert(front[i] == st[i]);
    }
    crate::path::lemma_normals_names(front);
    crate::path::lemma_path_of_names(front);
    assert(cs.last() == Comp::Normal(st.last()));
    st
}

proof fn lemma_seg_comps_parents(u: nat)
    ensures
        seg_comps(Seq::new(u, |i: int| dotdot())) == Seq::new(u, |i: int| Comp::Parent),
    decreases u,
{
    if u > 0 {
        lemma_seg_comps_parents((u - 1) as nat);
        assert(Seq::new(u, |i: int| dotdot()).drop_last() =~= Seq::new((u - 1) as nat, |i: int| dotdot()));
        assert(seg_comp(dotdot()) == Some(Comp::Parent));
        assert(Seq::new((u - 1) as nat, |i: int| Comp::Parent).push(Comp::Parent) =~= Seq::new(u, |i: int| Comp::Parent));
    } else {
        assert(Seq::new(u, |i: int| dotdot()) =~= Seq::<Seq<char>>::empty());
        assert(Seq::new(u, |i: int| Comp::Parent) =~= Seq::<Comp>::empty());
    }
}

/// Moving keeps imports intact: the specifier computed for an importer
/// is relative (`./` or `../`) and resolves, from that importer, to the
/// moved file, whenever the moved
/// file is what its own module base resolves to (nothing such as a
/// same-named `.ts` sibling of a `.js` target shadows it).
pub proof fn law_rewritten_specifier_resolves_to_target(importer: Seq<char>, target: Seq<char>, files: Set<Seq<char>>)
    requires
        normalized(importer) == Some(importer),
        normalized(target) == Some(target),
        is_name(module_stem_of(
            match file_name_of(target) {
                Some(n) => n,
                None => Seq::<char>::empty(),
            },
        )),
        first_member(base_candidates(module_base(target)), files) == Some(target),
    ensures
        starts_relative(relative_spec(importer, target)),
        resolve_module_spec(importer, relative_spec(importer, target), files) == Some(target),
{
    let si = lemma_engine_path(importer);
    let stt = lemma_engine_path(target);
    let di = si.drop_last();
    let dt = stt.drop_last();
    let name = stt.last();
    let stem = module_stem_of(name);
    let common = common_len(di, dt);
    lemma_common_len(di, dt);
    let up = (di.len() - common) as nat;
    let rest = dt.subrange(common as int, dt.len() as int);
    let parts = Seq::new(up, |i: int| dotdot()) + rest + seq![stem];
    let spec = relative_spec(importer, target);
    law_specifier_reaches_target(importer, target);
    // The specifier as `/`-joined segments.
    let lead: Seq<Seq<char>> = if up == 0 { seq![seq!['.']] } else { Seq::empty() };
    let segsq = lead + parts;
    assert(spec.len() > 0 && spec[0] == '.') by {
        reveal_strlit("./");
        if up == 0 {
            assert("./"@ =~= seq!['.', '/']);
        } else {
            crate::path::lemma_join_first(parts);
            assert(parts[0] == dotdot());
        }
    }
    assert(spec == join(segsq, slash())) by {
        reveal_strlit("./");
        if up == 0 {
            assert("./"@ =~= seq!['.'] + slash());
            crate::path::lemma_join_concat(lead, parts, slash());
            assert(join(lead, slash()) == seq!['.']);
            assert(spec =~= seq!['.'] + slash() + join(parts, slash()));
        } else {
            assert(segsq =~= parts);
        }
    }
    // Joined onto the importer's directory.
    let all = di + segsq;
    let joined = join_path(join(di, slash()), spec);
    assert(joined == join(all, slash())) by {
        if di.len() == 0 {
            assert(all =~= segsq);
        } else {
            crate::path::lemma_join_last(di);
            assert(is_name(di.last())) by {
                assert(di.last() == di[di.len() - 1]);
            }
            assert(di.last().last() != '/') by {
                let l = di.last();
                if l.last() == '/' {
                    assert(l[l.len() - 1] == '/');
                    assert(l.contains('/'));
                }
            }
            crate::path::lemma_join_concat(di, segsq, slash());
        }
    }
    // Its components.
    assert forall|i: int| 0 <= i < all.len() implies !(#[trigger] all[i]).contains('/') && all[i].len() > 0 by {
        if i < di.len() {
            assert(is_name(di[i]));
        } else {
            let k = i - di.len();
            assert(all[i] == segsq[k]);
            if k < lead.len() {
                assert(segsq[k] == seq!['.']);
                if seq!['.'].contains('/') {
                    let t = choose|t: int| 0 <= t < 1 && seq!['.'][t] == '/';
                }
            } else {
                let m = k - lead.len();
                assert(segsq[k] == parts[m]);
                if m < up {
                    assert(parts[m] == dotdot());
                    if dotdot().contains('/') {
                        let t = choose|t: int| 0 <= t < 2 && dotdot()[t] == '/';
                    }
                } else if m < up + rest.len() {
                    assert(parts[m] == rest[m - up]);
                    assert(rest[m - up] == dt[common + m - up]);
                    assert(is_name(stt[common + m - up]));
                } else {
                    assert(parts[m] == stem);
                }
            }
        }
    }
    crate::path::lemma_segs_join(all);
    crate::path::lemma_join_first(all);
    assert(all[0][0] != '/') by {
        if all[0][0] == '/' {
            assert(all[0].contains('/'));
        }
    }
    assert forall|i: int| 0 <= i < di.len() implies is_name(#[trigger] di[i]) by {
        assert(di[i] == si[i]);
    }
    crate::path::lemma_seg_comps_of_names(di);
    crate::path::lemma_seg_comps_concat(di, segsq);
    crate::path::lemma_seg_comps_concat(lead, parts);
    crate::path::lemma_seg_comps_concat(Seq::new(up, |i: int| dotdot()) + rest, seq![stem]);
    crate::path::lemma_seg_comps_concat(Seq::new(up, |i: int| dotdot()), rest);
    lemma_seg_comps_parents(up);
    assert forall|i: int| 0 <= i < rest.len() implies is_name(#[trigger] rest[i]) by {
        assert(rest[i] == stt[common + i]);
    }
    crate::path::lemma_seg_comps_of_names(rest);
    crate::path::lemma_seg_comps_of_names(seq![stem]);
    assert(seg_comps(lead) == Seq::<Comp>::empty()) by {
        if up == 0 {
            assert(lead.drop_last() =~= Seq::<Seq<char>>::empty());
            assert(lead.last() == seq!['.']);
            assert(seg_comp(seq!['.']) is None);
            assert(seg_comps(Seq::<Seq<char>>::empty()) == Seq::<Comp>::empty());
        } else {
            assert(lead =~= Seq::<Seq<char>>::empty());
            assert(seg_comps(Seq::<Seq<char>>::empty()) == Seq::<Comp>::empty());
        }
    }
    let steps = specifier_steps(importer, target);
    assert(seg_comps(all) =~= name_comps(di) + steps);
    assert(norm_stack(comps(joined)) == norm_stack(seg_comps(all))) by {
        if all[0] == seq!['.'] {
            assert(segs(joined)[0] == seq!['.']);
            assert(all =~= seq![all[0]] + all.drop_first());
            crate::path::lemma_seg_comps_concat(seq![all[0]], all.drop_first());
            assert(seq![all[0]].drop_last() =~= Seq::<Seq<char>>::empty());
            assert(seg_comps(seq![all[0]]) == Seq::<Comp>::empty());
            assert(seg_comps(all) =~= seg_comps(all.drop_first()));
            crate::path::lemma_norm_stack_cur(seg_comps(all.drop_first()));
        }
    }
    assert(normalized(joined) == Some(module_base(target)));
}

} // verus!

//! Java rule: normalise the import block to Google order — static imports
//! first, then single-type imports, each group sorted by its path,
//! duplicates dropped, one blank line between the groups.
//!
//! The repair is a single replacement of the whole (contiguous) import
//! block, so its expected text doubles as the staleness guard. Fewer than
//! two imports is never dirty; a block holding any other top-level node
//! is left alone (attached comments must not be orphaned by a re-sort);
//! an already-normalised block produces no candidate.

use vstd::prelude::*;

use crate::engine::index::Index;
use crate::engine::Edit;
use crate::order::{text_lt, texts};
use crate::parser::java::rules::unused_imports::slice_ok;
use crate::parser::java::rules::{is_static_line, starts_with, static_line};
use crate::parser::syntax::{node_str, parsed_nodes, tree_wf, Grammar, NodeView, SyntaxTree};
use crate::parser::words::{line_end, line_end_of};
use crate::parser::{fix_view, fix_views, Fix, FixCandidate, FixView, Severity};
use crate::path::join;
use crate::text::{chars_of, chars_slice, chars_starts_with, decimal, lemma_str_bytes, push_str, span_text, str_eq, string_of, usize_text, utf8};

verus! {

/// Rule id accepted by `jmove fix --rule`.
pub const RULE: &'static str = "java/import-order";

/// The indices of the top-level import declarations among the first `n`
/// nodes, in source order.
pub open spec fn import_nodes(ns: Seq<NodeView>, n: int) -> Seq<int>
    decreases n,
{
    if n <= 0 {
        Seq::empty()
    } else {
        let prev = import_nodes(ns, n - 1);
        let j = n - 1;
        if j >= 1 && ns[j].5 == 1 && ns[j].0 == "import_declaration"@ {
            prev.push(j)
        } else {
            prev
        }
    }
}

/// Some top-level node other than an import lies inside `start..end`.
pub open spec fn dirty(ns: Seq<NodeView>, start: int, end: int) -> bool {
    exists|j: int| 1 <= j < ns.len() && #[trigger] ns[j].5 == 1 && ns[j].0 != "import_declaration"@
        && ns[j].3 < end && ns[j].4 > start && ns[j].3 >= start && ns[j].4 <= end
}

/// The sortable identity of an import: its text without the leading
/// `import [static] `.
pub open spec fn sort_key(line: Seq<char>) -> Seq<char> {
    if starts_with(line, "import static "@) {
        line.subrange("import static "@.len() as int, line.len() as int)
    } else if starts_with(line, "import "@) {
        line.subrange("import "@.len() as int, line.len() as int)
    } else {
        line
    }
}

/// Index of the first line of `r` from `i` on whose key sorts after the
/// key of `x`.
pub open spec fn first_key_after(r: Seq<Seq<char>>, x: Seq<char>, i: int) -> int
    decreases r.len() - i,
{
    if i >= r.len() {
        r.len() as int
    } else if text_lt(sort_key(x), sort_key(r[i])) {
        i
    } else {
        first_key_after(r, x, i + 1)
    }
}

/// The lines sorted by key; equal keys keep their order.
pub open spec fn by_key(s: Seq<Seq<char>>) -> Seq<Seq<char>>
    decreases s.len(),
{
    if s.len() == 0 {
        Seq::empty()
    } else {
        let r = by_key(s.drop_last());
        r.insert(first_key_after(r, s.last(), 0), s.last())
    }
}

/// Runs of equal consecutive lines collapsed to one.
pub open spec fn dedup(s: Seq<Seq<char>>) -> Seq<Seq<char>>
    decreases s.len(),
{
    if s.len() == 0 {
        Seq::empty()
    } else {
        let d = dedup(s.drop_last());
        if d.len() > 0 && d.last() == s.last() {
            d
        } else {
            d.push(s.last())
        }
    }
}

/// Google order: statics first, blank line, then the single-type imports;
/// both groups sorted and deduplicated, each line ended by `nl`.
pub open spec fn normalised(lines: Seq<Seq<char>>, nl: Seq<char>) -> Seq<char> {
    let statics = dedup(by_key(lines.filter(|l: Seq<char>| is_static_line(l))));
    let types = dedup(by_key(lines.filter(|l: Seq<char>| !is_static_line(l))));
    let out = if statics.len() > 0 && types.len() > 0 {
        statics.push(Seq::empty()) + types
    } else {
        statics + types
    };
    join(out, nl) + nl
}

/// `\r\n` when the block uses it anywhere, else `\n`.
pub open spec fn newline_of(block: Seq<char>) -> Seq<char> {
    if exists|k: int| 0 <= k && k + 1 < block.len() && block[k] == '\r' && #[trigger] block[k + 1] == '\n' {
        "\r\n"@
    } else {
        "\n"@
    }
}

/// The candidate for a parsed file.
pub open spec fn tree_candidate(ns: Seq<NodeView>, src: Seq<u8>) -> Option<FixView> {
    let imports = import_nodes(ns, ns.len() as int);
    if imports.len() < 2 {
        None
    } else {
        let start = ns[imports[0]].3;
        let end = line_end(src, ns[imports.last()].4);
        if !slice_ok(src, start, end) || dirty(ns, start, end) {
            None
        } else {
            let block = vstd::utf8::decode_utf8(src.subrange(start, end));
            let lines = imports.map_values(|j: int| node_str(ns[j], src));
            let target = normalised(lines, newline_of(block));
            if target == block {
                None
            } else {
                Some((
                    RULE@,
                    decimal(lines.len() as nat) + " imports are not in google order"@,
                    Severity::Info,
                    true,
                    start,
                    end,
                    seq![(start, end, block, target)],
                    Seq::<Seq<char>>::empty(),
                ))
            }
        }
    }
}

/// What the rule proposes for `source`.
pub open spec fn fixes_spec(source: Seq<char>) -> Seq<FixView> {
    match parsed_nodes(Grammar::Java, source) {
        Some(ns) => if tree_wf(ns) {
            match tree_candidate(ns, utf8(source)) {
                Some(c) => seq![c],
                None => Seq::empty(),
            }
        } else {
            Seq::empty()
        },
        None => Seq::empty(),
    }
}

// The top-level import declarations, in order.
fn import_indices(tree: &SyntaxTree) -> (r: Vec<usize>)
    ensures
        r@.map_values(|j: usize| j as int) == import_nodes(tree@, tree@.len() as int),
        forall|k: int| 0 <= k < r@.len() ==> r@[k] < tree@.len(),
{
    let n = tree.len();
    let mut out: Vec<usize> = Vec::new();
    let mut j: usize = 0;
    while j < n
        invariant
            n == tree@.len(),
            j <= n,
            out@.map_values(|x: usize| x as int) == import_nodes(tree@, j as int),
            forall|k: int| 0 <= k < out@.len() ==> out@[k] < j,
        decreases n - j,
    {
        let node = tree.node(j);
        if j >= 1 && node.depth == 1 && str_eq(node.kind.as_str(), "import_declaration") {
            let ghost before = out@;
            out.push(j);
            assert(out@.map_values(|x: usize| x as int) =~= before.map_values(|x: usize| x as int).push(j as int));
        }
        j += 1;
    }
    out
}

// Whether a non-import top-level node lies inside `start..end`.
fn dirty_at(tree: &SyntaxTree, start: usize, end: usize) -> (r: bool)
    ensures
        r == dirty(tree@, start as int, end as int),
{
    let n = tree.len();
    let mut j: usize = 1;
    while j < n
        invariant
            n == tree@.len(),
            1 <= j,
            forall|k: int| 1 <= k < j && k < n ==> !(#[trigger] tree@[k].5 == 1 && tree@[k].0 != "import_declaration"@
                && tree@[k].3 < end && tree@[k].4 > start && tree@[k].3 >= start && tree@[k].4 <= end),
        decreases n - j,
    {
        let node = tree.node(j);
        assert(tree@[j as int] == node.view_of());
        if node.depth == 1 && !str_eq(node.kind.as_str(), "import_declaration") && node.start < end && node.end > start
            && node.start >= start && node.end <= end {
            assert(tree@[j as int].5 == 1);
            assert(dirty(tree@, start as int, end as int));
            return true;
        }
        j += 1;
    }
    false
}

// The key of a line, as in [`sort_key`].
fn key_of(line: &Vec<char>) -> (r: Vec<char>)
    ensures
        r@ == sort_key(line@),
{
    let st = chars_of("import static ");
    let im = chars_of("import ");
    proof {
        reveal_strlit("import static ");
        reveal_strlit("import ");
    }
    if chars_starts_with(line.as_slice(), st.as_slice()) {
        chars_slice(line.as_slice(), st.len(), line.len())
    } else if chars_starts_with(line.as_slice(), im.as_slice()) {
        chars_slice(line.as_slice(), im.len(), line.len())
    } else {
        chars_slice(line.as_slice(), 0, line.len())
    }
}

/// The views of character lines.
pub open spec fn line_views(v: Seq<Vec<char>>) -> Seq<Seq<char>> {
    v.map_values(|l: Vec<char>| l@)
}

// The lines sorted by key, stable.
fn sort_by_key(v: &Vec<Vec<char>>) -> (r: Vec<Vec<char>>)
    ensures
        line_views(r@) == by_key(line_views(v@)),
{
    let mut r: Vec<Vec<char>> = Vec::new();
    let mut i: usize = 0;
    while i < v.len()
        invariant
            i <= v@.len(),
            line_views(r@) == by_key(line_views(v@).take(i as int)),
        decreases v.len() - i,
    {
        let x = v[i].clone();
        let ghost xv = x@;
        let ghost rv = line_views(r@);
        let kx = key_of(&x);
        let mut p: usize = 0;
        while p < r.len() && !crate::order::chars_lt(kx.as_slice(), key_of(&r[p]).as_slice())
            invariant
                p <= r@.len(),
                rv == line_views(r@),
                xv == x@,
                kx@ == sort_key(xv),
                first_key_after(rv, xv, 0) == first_key_after(rv, xv, p as int),
            decreases r.len() - p,
        {
            assert(rv[p as int] == r@[p as int]@);
            p += 1;
        }
        proof {
            if p < r@.len() {
                assert(rv[p as int] == r@[p as int]@);
            }
        }
        assert(first_key_after(rv, xv, 0) == p);
        r.insert(p, x);
        proof {
            let t = line_views(v@).take(i + 1);
            assert(t.drop_last() =~= line_views(v@).take(i as int));
            assert(t.last() == xv);
            assert(line_views(r@) =~= rv.insert(p as int, xv));
        }
        i += 1;
    }
    assert(line_views(v@).take(v@.len() as int) =~= line_views(v@));
    r
}

// Consecutive duplicates collapsed.
fn dedup_lines(v: &Vec<Vec<char>>) -> (r: Vec<Vec<char>>)
    ensures
        line_views(r@) == dedup(line_views(v@)),
{
    let mut r: Vec<Vec<char>> = Vec::new();
    let mut i: usize = 0;
    while i < v.len()
        invariant
            i <= v@.len(),
            line_views(r@) == dedup(line_views(v@).take(i as int)),
        decreases v.len() - i,
    {
        let ghost t = line_views(v@).take(i + 1);
        assert(t.drop_last() =~= line_views(v@).take(i as int));
        assert(t.last() == v@[i as int]@);
        let same = r.len() > 0 && crate::text::chars_eq(r[r.len() - 1].as_slice(), v[i].as_slice());
        if !same {
            let ghost before = r@;
            r.push(v[i].clone());
            assert(line_views(r@) =~= line_views(before).push(v@[i as int]@));
        }
        i += 1;
    }
    assert(line_views(v@).take(v@.len() as int) =~= line_views(v@));
    r
}

// The newline the block uses.
fn newline_in(block: &Vec<char>) -> (r: &'static str)
    ensures
        r@ == newline_of(block@),
{
    let n = block.len();
    let mut k: usize = 0;
    while k < n && k + 1 < n
        invariant
            n == block@.len(),
            forall|j: int| 0 <= j < k && j + 1 < block@.len() ==> !(block@[j] == '\r' && #[trigger] block@[j + 1] == '\n'),
        decreases block.len() - k,
    {
        if block[k] == '\r' && block[k + 1] == '\n' {
            return "\r\n";
        }
        k += 1;
    }
    "\n"
}

// The normalised block, as in [`normalised`].
fn normalise(lines: &Vec<Vec<char>>, nl: &str) -> (r: Vec<char>)
    ensures
        r@ == normalised(line_views(lines@), nl@),
{
    let ghost lv = line_views(lines@);
    let mut statics: Vec<Vec<char>> = Vec::new();
    let mut types: Vec<Vec<char>> = Vec::new();
    let mut i: usize = 0;
    while i < lines.len()
        invariant
            lv == line_views(lines@),
            i <= lines@.len(),
            line_views(statics@) == lv.take(i as int).filter(|l: Seq<char>| is_static_line(l)),
            line_views(types@) == lv.take(i as int).filter(|l: Seq<char>| !is_static_line(l)),
        decreases lines.len() - i,
    {
        let line = &lines[i];
        let st = static_line(string_of(line.as_slice()).as_str());
        proof {
            assert(lv.take(i + 1) =~= lv.take(i as int).push(line@));
            crate::order::lemma_filter_push(lv.take(i as int), line@, |l: Seq<char>| is_static_line(l));
            crate::order::lemma_filter_push(lv.take(i as int), line@, |l: Seq<char>| !is_static_line(l));
        }
        if st {
            let ghost before = statics@;
            statics.push(line.clone());
            assert(line_views(statics@) =~= line_views(before).push(line@));
        } else {
            let ghost before = types@;
            types.push(line.clone());
            assert(line_views(types@) =~= line_views(before).push(line@));
        }
        i += 1;
    }
    assert(lv.take(lines@.len() as int) =~= lv);
    let statics = dedup_lines(&sort_by_key(&statics));
    let types = dedup_lines(&sort_by_key(&types));
    let mut out: Vec<Vec<char>> = Vec::new();
    let mut k: usize = 0;
    while k < statics.len()
        invariant
            k <= statics@.len(),
            line_views(out@) == line_views(statics@).take(k as int),
        decreases statics.len() - k,
    {
        let ghost before = out@;
        out.push(statics[k].clone());
        assert(line_views(out@) =~= line_views(before).push(statics@[k as int]@));
        assert(line_views(statics@).take(k + 1) =~= line_views(statics@).take(k as int).push(statics@[k as int]@));
        k += 1;
    }
    assert(line_views(statics@).take(statics@.len() as int) =~= line_views(statics@));
    if statics.len() > 0 && types.len() > 0 {
        let ghost before = out@;
        out.push(Vec::new());
        assert(line_views(out@) =~= line_views(before).push(Seq::<char>::empty()));
    }
    let ghost head = line_views(out@);
    let mut k: usize = 0;
    while k < types.len()
        invariant
            k <= types@.len(),
            line_views(out@) == head + line_views(types@).take(k as int),
        decreases types.len() - k,
    {
        let ghost before = out@;
        out.push(types[k].clone());
        assert(line_views(out@) =~= line_views(before).push(types@[k as int]@));
        assert(line_views(types@).take(k + 1) =~= line_views(types@).take(k as int).push(types@[k as int]@));
        k += 1;
    }
    assert(line_views(types@).take(types@.len() as int) =~= line_views(types@));
    let sep = chars_of(nl);
    let mut r = crate::path::join_chars(out.as_slice(), sep.as_slice());
    crate::text::extend_chars(&mut r, sep.as_slice());
    assert(crate::path::views(out@) == line_views(out@));
    r
}

// The candidate of a parsed file, as in [`tree_candidate`].
fn candidate_at(tree: &SyntaxTree, source: &str) -> (r: Option<FixCandidate>)
    ensures
        match r {
            Some(c) => tree_candidate(tree@, utf8(source@)) == Some(fix_view(c)),
            None => tree_candidate(tree@, utf8(source@)) is None,
        },
{
    let ghost ns = tree@;
    let ghost src = utf8(source@);
    let imports = import_indices(tree);
    let ghost iv = import_nodes(ns, ns.len() as int);
    assert(imports@.len() == iv.len());
    if imports.len() < 2 {
        return None;
    }
    let bytes = source.as_bytes();
    proof {
        lemma_str_bytes(source);
    }
    assert(iv[0] == imports@[0] as int);
    assert(iv.last() == imports@[imports@.len() - 1] as int);
    let start = tree.node(imports[0]).start;
    let end = line_end_of(bytes, tree.node(imports[imports.len() - 1]).end);
    let block = match span_text(source, start, end) {
        Some(b) => b,
        None => return None,
    };
    proof {
        broadcast use vstd::utf8::encode_utf8_decode_utf8;
    }
    if dirty_at(tree, start, end) {
        return None;
    }
    let mut lines: Vec<Vec<char>> = Vec::new();
    let mut k: usize = 0;
    while k < imports.len()
        invariant
            k <= imports@.len(),
            imports@.len() == iv.len(),
            iv == import_nodes(ns, ns.len() as int),
            ns == tree@,
            src == utf8(source@),
            imports@.map_values(|j: usize| j as int) == iv,
            forall|q: int| 0 <= q < imports@.len() ==> imports@[q] < ns.len(),
            line_views(lines@) == iv.map_values(|j: int| node_str(ns[j], src)).take(k as int),
        decreases imports.len() - k,
    {
        assert(iv[k as int] == imports@[k as int] as int);
        let t = tree.text(imports[k], source);
        let ghost before = lines@;
        lines.push(chars_of(t.as_str()));
        assert(line_views(lines@) =~= line_views(before).push(t@));
        assert(iv.map_values(|j: int| node_str(ns[j], src)).take(k + 1) =~= iv.map_values(|j: int| node_str(ns[j], src)).take(k as int).push(node_str(ns[iv[k as int]], src)));
        k += 1;
    }
    assert(iv.map_values(|j: int| node_str(ns[j], src)).take(imports@.len() as int) =~= iv.map_values(|j: int| node_str(ns[j], src)));
    let block_chars = chars_of(block.as_str());
    let nl = newline_in(&block_chars);
    let target = normalise(&lines, nl);
    if crate::text::chars_eq(target.as_slice(), block_chars.as_slice()) {
        return None;
    }
    let mut message = usize_text(lines.len());
    push_str(&mut message, " imports are not in google order");
    let edits = vec![Edit { span: start..end, old_text: block, new_text: string_of(target.as_slice()) }];
    let c = FixCandidate {
        rule: RULE,
        message,
        severity: Severity::Info,
        auto_fixable: true,
        span: start..end,
        edits,
        candidates: Vec::new(),
    };
    proof {
        assert(crate::engine::apply::fsops::edit_views(c.edits@) =~= seq![(start as int, end as int, block_chars@, target@)]);
        assert(texts(c.candidates@) =~= Seq::<Seq<char>>::empty());
    }
    Some(c)
}

/// Import block orderer.
pub struct JavaImportOrder;

impl JavaImportOrder {
    /// Create the rule.
    pub fn new() -> (r: Self) {
        JavaImportOrder
    }
}

impl Default for JavaImportOrder {
    fn default() -> (r: Self) {
        JavaImportOrder
    }
}

impl Fix for JavaImportOrder {
    open spec fn rule_spec(&self) -> Seq<char> {
        RULE@
    }

    open spec fn fixes_spec(&self, path: Seq<char>, source: Seq<char>, index: Index) -> Seq<FixView> {
        fixes_spec(source)
    }

    fn rule(&self) -> (r: &'static str) {
        RULE
    }

    fn fixes(&self, path: &str, source: &str, index: &Index) -> (r: Vec<FixCandidate>) {
        let tree = match SyntaxTree::parse(Grammar::Java, source) {
            Some(t) => t,
            None => {
                let r: Vec<FixCandidate> = Vec::new();
                assert(fix_views(r@) =~= Seq::<FixView>::empty());
                return r;
            },
        };
        match candidate_at(&tree, source) {
            Some(c) => {
                let r = vec![c];
                assert(fix_views(r@) =~= seq![fix_view(c)]);
                r
            },
            None => {
                let r: Vec<FixCandidate> = Vec::new();
                assert(fix_views(r@) =~= Seq::<FixView>::empty());
                r
            },
        }
    }
}

} // verus!

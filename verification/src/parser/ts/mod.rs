//! The TypeScript/JavaScript frontend over the tree-sitter grammar.
//!
//! Finds every module reference: `import`/`export … from` statements (the
//! grammar exposes the specifier through the `source` field),
//! `require("…")` calls and dynamic `import("…")` calls. Nesting depth is
//! arbitrary: the walk goes into every named child, recursively.

use vstd::prelude::*;

pub mod unused_imports;

use crate::parser::syntax::{
    field_child, found, named_child, node_text, span_ok, Grammar, NodeView, SyntaxTree, tree_wf,
    parsed_nodes,
};
use crate::parser::{record_views, ImportRecord, RecordView, SourceLanguage};
use crate::text::{lemma_str_bytes, lemma_utf8_injective, span_text, str_eq, utf8};

verus! {

/// ASCII `"`.
pub open spec fn dquote() -> u8 {
    34u8
}

/// ASCII `'`.
pub open spec fn squote() -> u8 {
    39u8
}

/// The record for a string node used as a specifier: the span covers the
/// text between the quote characters (the grammar only emits ASCII
/// quotes), never the quotes themselves. Nothing unless the node's text
/// is a quoted string (at least the two quotes, the same quote at both
/// ends) whose slices are valid.
pub open spec fn string_record(v: NodeView, src: Seq<u8>, dynamic: bool) -> Option<RecordView> {
    let s = v.3;
    let e = v.4;
    if span_ok(v, src) && s + 2 <= e && (src[s] == dquote() || src[s] == squote()) && src[e - 1] == src[s]
        && crate::text::char_boundary(src, s + 1) && crate::text::char_boundary(src, e - 1) {
        Some((src.subrange(s + 1, e - 1), s + 1, e - 1, dynamic))
    } else {
        None
    }
}

/// The record of a `require("…")` / `import("…")` call node `i` whose
/// first argument is a string literal.
pub open spec fn call_record(ns: Seq<NodeView>, src: Seq<u8>, i: int) -> Option<RecordView> {
    match field_child(ns, i, i + 1, "function"@) {
        None => None,
        Some(f) => {
            let is_require = ns[f].0 == "identifier"@ && node_text(ns[f], src) == utf8("require"@);
            if ns[f].0 != "import"@ && !is_require {
                None
            } else {
                match field_child(ns, i, i + 1, "arguments"@) {
                    None => None,
                    Some(a) => match named_child(ns, a, a + 1) {
                        Some(c) => if ns[c].0 == "string"@ {
                            string_record(ns[c], src, true)
                        } else {
                            None
                        },
                        None => None,
                    },
                }
            }
        },
    }
}

/// The record node `i` contributes, if any: the `source` of an import or
/// export statement, or a qualifying call.
pub open spec fn node_record(ns: Seq<NodeView>, src: Seq<u8>, i: int) -> Option<RecordView> {
    let k = ns[i].0;
    if k == "import_statement"@ || k == "export_statement"@ {
        match field_child(ns, i, i + 1, "source"@) {
            Some(j) => string_record(ns[j], src, false),
            None => None,
        }
    } else if k == "call_expression"@ {
        call_record(ns, src, i)
    } else {
        None
    }
}

/// The last index `<= j` at depth `d` (`-1` when there is none).
pub open spec fn last_at_depth(ns: Seq<NodeView>, j: int, d: int) -> int
    decreases j + 1,
{
    if j < 0 {
        -1
    } else if ns[j].5 == d {
        j
    } else {
        last_at_depth(ns, j - 1, d)
    }
}

/// [`last_at_depth`] lies in `-1..=j` and, when found, is at depth `d`.
pub proof fn lemma_last_at_depth(ns: Seq<NodeView>, j: int, d: int)
    ensures
        -1 <= last_at_depth(ns, j, d) <= if j < 0 { -1 } else { j },
        last_at_depth(ns, j, d) >= 0 ==> ns[last_at_depth(ns, j, d)].5 == d,
    decreases j + 1,
{
    if j >= 0 && ns[j].5 != d {
        lemma_last_at_depth(ns, j - 1, d);
    }
}

/// The walk reaches node `i`: the root, or a named node whose parent (the
/// last node before it one level up) is reached.
pub open spec fn reached(ns: Seq<NodeView>, i: int) -> bool
    decreases i,
{
    if i <= 0 {
        i == 0
    } else {
        let p = last_at_depth(ns, i - 1, ns[i].5 - 1);
        proof {
            lemma_last_at_depth(ns, i - 1, ns[i].5 - 1);
        }
        ns[i].2 && 0 <= p && reached(ns, p)
    }
}

/// The records of the reached nodes among the first `n`, in pre-order.
pub open spec fn collect(ns: Seq<NodeView>, src: Seq<u8>, n: int) -> Seq<RecordView>
    decreases n,
{
    if n <= 0 {
        Seq::empty()
    } else {
        let prev = collect(ns, src, n - 1);
        if reached(ns, n - 1) {
            match node_record(ns, src, n - 1) {
                Some(r) => prev.push(r),
                None => prev,
            }
        } else {
            prev
        }
    }
}

/// Index of the first record of `r` from `i` on that starts after `x`.
pub open spec fn first_start_after(r: Seq<RecordView>, x: RecordView, i: int) -> int
    decreases r.len() - i,
{
    if i >= r.len() {
        r.len() as int
    } else if r[i].1 > x.1 {
        i
    } else {
        first_start_after(r, x, i + 1)
    }
}

/// The records sorted by span start; equal starts keep their order.
pub open spec fn by_start(s: Seq<RecordView>) -> Seq<RecordView>
    decreases s.len(),
{
    if s.len() == 0 {
        Seq::empty()
    } else {
        let r = by_start(s.drop_last());
        r.insert(first_start_after(r, s.last(), 0), s.last())
    }
}

/// The records of a parsed file, in byte-offset order.
pub open spec fn tree_records(ns: Seq<NodeView>, src: Seq<u8>) -> Seq<RecordView> {
    by_start(collect(ns, src, ns.len() as int))
}

/// The grammar for a language variant: the TypeScript grammar also reads
/// plain JavaScript; only JSX needs the TSX variant.
pub open spec fn grammar_spec(lang: SourceLanguage) -> Grammar {
    match lang {
        SourceLanguage::Tsx => Grammar::Tsx,
        _ => Grammar::TypeScript,
    }
}

/// What [`extract`] returns for `source` in `lang`.
pub open spec fn extract_spec(lang: SourceLanguage, source: Seq<char>) -> Seq<RecordView> {
    match parsed_nodes(grammar_spec(lang), source) {
        Some(ns) => if tree_wf(ns) {
            tree_records(ns, utf8(source))
        } else {
            Seq::empty()
        },
        None => Seq::empty(),
    }
}

/// The grammar for a language variant (Java never reaches this frontend;
/// everything but TSX maps to plain TypeScript).
pub fn grammar(lang: SourceLanguage) -> (g: Grammar)
    ensures
        g == grammar_spec(lang),
{
    match lang {
        SourceLanguage::Tsx => Grammar::Tsx,
        _ => Grammar::TypeScript,
    }
}

// The record of string node `i`, as in [`string_record`].
fn string_record_at(tree: &SyntaxTree, i: usize, source: &str, dynamic: bool) -> (r: Option<ImportRecord>)
    requires
        i < tree@.len(),
    ensures
        crate::parser::record_view_opt(r) == string_record(tree@[i as int], utf8(source@), dynamic),
{
    let ghost src = utf8(source@);
    let ghost v = tree@[i as int];
    let node = tree.node(i);
    let bytes = source.as_bytes();
    proof {
        lemma_str_bytes(source);
    }
    let (s, e) = (node.start, node.end);
    if e < 2 || s > e - 2 || e > bytes.len() {
        return None;
    }
    if span_text(source, s, e).is_none() {
        return None;
    }
    let q = bytes[s];
    if (q != 34u8 && q != 39u8) || bytes[e - 1] != q {
        return None;
    }
    match span_text(source, s + 1, e - 1) {
        Some(spec) => {
            proof {
                assert(span_ok(v, src));
            }
            Some(ImportRecord { specifier: spec, span: s + 1..e - 1, is_dynamic: dynamic })
        },
        None => None,
    }
}

// The record of call node `i`, as in [`call_record`].
fn call_record_at(tree: &SyntaxTree, i: usize, source: &str) -> (r: Option<ImportRecord>)
    requires
        i < tree@.len(),
    ensures
        crate::parser::record_view_opt(r) == call_record(tree@, utf8(source@), i as int),
{
    let ghost ns = tree@;
    let ghost src = utf8(source@);
    let f = match tree.field_child(i, "function") {
        Some(f) => f,
        None => return None,
    };
    let fk = tree.node(f).kind.as_str();
    let is_import = str_eq(fk, "import");
    let is_require = str_eq(fk, "identifier") && {
        let t = tree.text(f, source);
        proof {
            lemma_utf8_injective(t@, "require"@);
        }
        str_eq(t.as_str(), "require")
    };
    if !is_import && !is_require {
        return None;
    }
    let a = match tree.field_child(i, "arguments") {
        Some(a) => a,
        None => return None,
    };
    let c = match tree.named_child(a) {
        Some(c) => c,
        None => return None,
    };
    if !str_eq(tree.node(c).kind.as_str(), "string") {
        return None;
    }
    string_record_at(tree, c, source, true)
}

// The record of node `i`, as in [`node_record`].
fn node_record_at(tree: &SyntaxTree, i: usize, source: &str) -> (r: Option<ImportRecord>)
    requires
        i < tree@.len(),
    ensures
        crate::parser::record_view_opt(r) == node_record(tree@, utf8(source@), i as int),
{
    let k = tree.node(i).kind.as_str();
    if str_eq(k, "import_statement") || str_eq(k, "export_statement") {
        match tree.field_child(i, "source") {
            Some(j) => string_record_at(tree, j, source, false),
            None => None,
        }
    } else if str_eq(k, "call_expression") {
        call_record_at(tree, i, source)
    } else {
        None
    }
}

/// `open[d]` holds whether the last node at depth `d` up to index `last`
/// is reached (and there is such a node).
pub open spec fn open_at(ns: Seq<NodeView>, open: Seq<bool>, last: int, d: int) -> bool {
    last_at_depth(ns, last, d) >= 0 && open[d] == reached(ns, last_at_depth(ns, last, d))
}

/// `open` records, for every depth up to that of node `last`, whether the
/// last node at that depth is reached.
pub open spec fn open_ok(ns: Seq<NodeView>, open: Seq<bool>, last: int) -> bool {
    &&& last < 0 ==> open.len() == 0
    &&& last >= 0 ==> open.len() > ns[last].5
    &&& open.len() <= last + 1
    &&& forall|d: int| 0 <= d < open.len() ==> #[trigger] open_at(ns, open, last, d)
}

// Step the walk over node `i`: whether it is reached, with `open` moved on.
fn advance(tree: &SyntaxTree, open: &mut Vec<bool>, i: usize) -> (here: bool)
    requires
        tree_wf(tree@),
        i < tree@.len(),
        open_ok(tree@, old(open)@, i - 1),
    ensures
        here == reached(tree@, i as int),
        open_ok(tree@, final(open)@, i as int),
{
    let ghost ns = tree@;
    let node = tree.node(i);
    let d = node.depth;
    let here: bool;
    if i == 0 {
        here = true;
    } else {
        assert(1 <= ns[i as int].5 <= ns[i - 1].5 + 1);
        assert(open_at(ns, open@, i - 1, d - 1));
        here = node.named && open[d - 1];
        proof {
            lemma_last_at_depth(ns, i - 1, d - 1);
        }
    }
    assert(here == reached(ns, i as int));
    let ghost old_open = open@;
    if d == open.len() {
        open.push(here);
    } else {
        open.set(d, here);
    }
    assert forall|e: int| 0 <= e < open@.len() implies #[trigger] open_at(ns, open@, i as int, e) by {
        if e != d {
            assert(open@[e] == old_open[e]);
            assert(last_at_depth(ns, i as int, e) == last_at_depth(ns, i - 1, e));
            assert(open_at(ns, old_open, i - 1, e));
        } else {
            assert(last_at_depth(ns, i as int, e) == i);
        }
    }
    here
}

// The records of the reached nodes, in pre-order.
fn collect_records(tree: &SyntaxTree, source: &str) -> (r: Vec<ImportRecord>)
    ensures
        record_views(r@) == collect(tree@, utf8(source@), tree@.len() as int),
{
    let ghost ns = tree@;
    let ghost src = utf8(source@);
    tree.shape();
    let n = tree.len();
    let mut open: Vec<bool> = Vec::new();
    let mut out: Vec<ImportRecord> = Vec::new();
    let mut i: usize = 0;
    while i < n
        invariant
            ns == tree@,
            src == utf8(source@),
            tree_wf(ns),
            n == ns.len(),
            i <= n,
            record_views(out@) == collect(ns, src, i as int),
            open_ok(ns, open@, i - 1),
        decreases n - i,
    {
        let here = advance(tree, &mut open, i);
        if here {
            match node_record_at(tree, i, source) {
                Some(rec) => {
                    let ghost before = out@;
                    out.push(rec);
                    assert(record_views(out@) =~= record_views(before).push(crate::parser::record_view(rec)));
                },
                None => {},
            }
        }
        i += 1;
    }
    out
}

// The records sorted by span start, stable.
fn sort_by_start(v: Vec<ImportRecord>) -> (r: Vec<ImportRecord>)
    ensures
        record_views(r@) == by_start(record_views(v@)),
{
    let mut r: Vec<ImportRecord> = Vec::new();
    let mut i: usize = 0;
    while i < v.len()
        invariant
            i <= v@.len(),
            record_views(r@) == by_start(record_views(v@).take(i as int)),
        decreases v.len() - i,
    {
        let x = v[i].clone();
        let ghost xv = crate::parser::record_view(x);
        let ghost rv = record_views(r@);
        let mut p: usize = 0;
        while p < r.len() && r[p].span.start <= x.span.start
            invariant
                p <= r@.len(),
                rv == record_views(r@),
                xv == crate::parser::record_view(x),
                first_start_after(rv, xv, 0) == first_start_after(rv, xv, p as int),
            decreases r.len() - p,
        {
            assert(rv[p as int] == crate::parser::record_view(r@[p as int]));
            p += 1;
        }
        proof {
            if p < r@.len() {
                assert(rv[p as int] == crate::parser::record_view(r@[p as int]));
            }
        }
        assert(first_start_after(rv, xv, 0) == p);
        r.insert(p, x);
        proof {
            let t = record_views(v@).take(i + 1);
            assert(t.drop_last() =~= record_views(v@).take(i as int));
            assert(t.last() == xv);
            assert(record_views(r@) =~= rv.insert(p as int, xv));
        }
        i += 1;
    }
    assert(record_views(v@).take(v@.len() as int) =~= record_views(v@));
    r
}

/// The imports of a parsed file, in byte-offset order.
pub fn tree_imports(tree: &SyntaxTree, source: &str) -> (r: Vec<ImportRecord>)
    ensures
        record_views(r@) == tree_records(tree@, utf8(source@)),
{
    let all = collect_records(tree, source);
    sort_by_start(all)
}

/// Parse `source` and collect its imports in byte-offset order. A file
/// the parser refuses yields no records; partial trees yield what they
/// understood.
pub fn extract(lang: SourceLanguage, source: &str) -> (r: Vec<ImportRecord>)
    ensures
        record_views(r@) == extract_spec(lang, source@),
{
    match SyntaxTree::parse(grammar(lang), source) {
        Some(tree) => tree_imports(&tree, source),
        None => {
            let r: Vec<ImportRecord> = Vec::new();
            assert(record_views(r@) =~= Seq::<RecordView>::empty());
            r
        },
    }
}

/// Frontend backed by the tree-sitter TypeScript/TSX grammar.
pub struct TreeSitterTs {
    lang: SourceLanguage,
}

impl TreeSitterTs {
    /// Create a frontend for the given language variant.
    pub fn new(lang: SourceLanguage) -> (r: Self)
        ensures
            r.language_spec() == lang,
    {
        TreeSitterTs { lang }
    }

    /// The language variant this frontend reads.
    pub closed spec fn language_spec(&self) -> SourceLanguage {
        self.lang
    }

    /// The language variant this frontend reads.
    pub fn language(&self) -> (r: SourceLanguage)
        ensures
            r == self.language_spec(),
    {
        self.lang
    }

    /// All import records of `source`, in byte-offset order.
    pub fn extract_imports(&self, source: &str) -> (r: Vec<ImportRecord>)
        ensures
            record_views(r@) == extract_spec(self.language_spec(), source@),
    {
        extract(self.lang, source)
    }
}

} // verus!

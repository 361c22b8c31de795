//! TS/JS rule: drop import statements none of whose bindings is ever
//! referenced.
//!
//! A binding is kept alive when its name occurs as a standalone word
//! anywhere outside its own `import` statement (comments and strings
//! included, see [`crate::parser::words`]), so the rule can only
//! under-delete: a JSX component, a decorator, a `typeof x` or a comment
//! mention all count as uses. A statement binding several names goes only
//! when all of them are dead; `import "./side-effect"` binds nothing and
//! re-exports are `export` statements, so neither is ever a candidate.

use vstd::prelude::*;

use crate::engine::index::Index;
use crate::engine::Edit;
use crate::parser::java::rules::unused_imports::slice_ok;
use crate::parser::syntax::{kind_child, node_str, parsed_nodes, tree_wf, NodeView, SyntaxTree};
use crate::parser::ts::{grammar, grammar_spec};
use crate::parser::words::{line_end, line_end_of, occurs_outside, word_occurs};
use crate::parser::{fix_view, fix_views, language_of_path, Fix, FixCandidate, FixView, Severity, SourceLanguage};
use crate::path::join;
use crate::text::{chars_of, lemma_str_bytes, push_str, span_text, str_eq, string_of, utf8};

verus! {

/// Rule id accepted by `jmove fix --rule`.
pub const RULE: &'static str = "ts/unused-import";

/// The last child of `i` of kind `k`, children scanned from `j` on.
pub open spec fn last_kind_child(ns: Seq<NodeView>, i: int, j: int, k: Seq<char>) -> Option<int>
    decreases ns.len() - j,
{
    if j >= ns.len() || j <= i || ns[j].5 <= ns[i].5 {
        None
    } else {
        match last_kind_child(ns, i, j + 1, k) {
            Some(x) => Some(x),
            None => if ns[j].5 == ns[i].5 + 1 && ns[j].0 == k {
                Some(j)
            } else {
                None
            },
        }
    }
}

/// The local names of the `import_specifier` children of a
/// `named_imports` node `n` (scanned from `j`): the last identifier of
/// each, i.e. the alias of `B as C`.
pub open spec fn specifier_names(ns: Seq<NodeView>, src: Seq<u8>, n: int, j: int) -> Seq<Seq<char>>
    decreases ns.len() - j,
{
    if j >= ns.len() || j <= n || ns[j].5 <= ns[n].5 {
        Seq::empty()
    } else {
        let rest = specifier_names(ns, src, n, j + 1);
        if ns[j].5 == ns[n].5 + 1 && ns[j].0 == "import_specifier"@ {
            match last_kind_child(ns, j, j + 1, "identifier"@) {
                Some(x) => seq![node_str(ns[x], src)] + rest,
                None => rest,
            }
        } else {
            rest
        }
    }
}

/// The names one child `j` of an import clause binds: a default import's
/// identifier, a namespace import's alias, or the named imports' locals.
pub open spec fn child_names(ns: Seq<NodeView>, src: Seq<u8>, j: int) -> Seq<Seq<char>> {
    let k = ns[j].0;
    if k == "identifier"@ {
        seq![node_str(ns[j], src)]
    } else if k == "namespace_import"@ {
        match last_kind_child(ns, j, j + 1, "identifier"@) {
            Some(x) => seq![node_str(ns[x], src)],
            None => Seq::empty(),
        }
    } else if k == "named_imports"@ {
        specifier_names(ns, src, j, j + 1)
    } else {
        Seq::empty()
    }
}

/// Every local name import clause `c` introduces (children scanned from
/// `j`), in source order.
pub open spec fn clause_names(ns: Seq<NodeView>, src: Seq<u8>, c: int, j: int) -> Seq<Seq<char>>
    decreases ns.len() - j,
{
    if j >= ns.len() || j <= c || ns[j].5 <= ns[c].5 {
        Seq::empty()
    } else {
        let rest = clause_names(ns, src, c, j + 1);
        if ns[j].5 == ns[c].5 + 1 {
            child_names(ns, src, j) + rest
        } else {
            rest
        }
    }
}

/// The candidate for import statement `i`: when it binds names and none
/// occurs outside the statement, delete it with its line end.
pub open spec fn candidate(ns: Seq<NodeView>, src: Seq<u8>, i: int) -> Option<FixView> {
    match kind_child(ns, i, i + 1, "import_clause"@) {
        None => None,
        Some(c) => {
            let names = clause_names(ns, src, c, c + 1);
            if names.len() == 0 {
                None
            } else if exists|k: int| 0 <= k < names.len() && word_occurs(src, utf8(#[trigger] names[k]), ns[i].3, ns[i].4) {
                None
            } else {
                let s = ns[i].3;
                let e = line_end(src, ns[i].4);
                if slice_ok(src, s, e) {
                    Some((
                        RULE@,
                        "unused import ["@ + join(names, ", "@) + "]"@,
                        Severity::Warning,
                        true,
                        s,
                        e,
                        seq![(s, e, vstd::utf8::decode_utf8(src.subrange(s, e)), Seq::<char>::empty())],
                        Seq::<Seq<char>>::empty(),
                    ))
                } else {
                    None
                }
            }
        },
    }
}

/// The candidates among the first `n` nodes: top-level import statements,
/// in source order.
pub open spec fn collect(ns: Seq<NodeView>, src: Seq<u8>, n: int) -> Seq<FixView>
    decreases n,
{
    if n <= 0 {
        Seq::empty()
    } else {
        let prev = collect(ns, src, n - 1);
        let j = n - 1;
        if j >= 1 && ns[j].5 == 1 && ns[j].0 == "import_statement"@ {
            match candidate(ns, src, j) {
                Some(c) => prev.push(c),
                None => prev,
            }
        } else {
            prev
        }
    }
}

/// The language a path is read as (TypeScript when it has none).
pub open spec fn lang_or_ts(path: Seq<char>) -> SourceLanguage {
    match language_of_path(path) {
        Some(l) => l,
        None => SourceLanguage::TypeScript,
    }
}

/// What the rule proposes for `path` with contents `source`.
pub open spec fn fixes_spec(path: Seq<char>, source: Seq<char>) -> Seq<FixView> {
    match parsed_nodes(grammar_spec(lang_or_ts(path)), source) {
        Some(ns) => if tree_wf(ns) {
            collect(ns, utf8(source), ns.len() as int)
        } else {
            Seq::empty()
        },
        None => Seq::empty(),
    }
}

// The last child of `i` of kind `k`.
fn last_kind_child_at(tree: &SyntaxTree, i: usize, k: &str) -> (r: Option<usize>)
    requires
        i < tree@.len(),
    ensures
        crate::parser::syntax::found(r) == last_kind_child(tree@, i as int, i + 1, k@),
        r matches Some(x) ==> i < x < tree@.len(),
{
    let ghost ns = tree@;
    let n = tree.len();
    let d = tree.node(i).depth;
    let mut last: Option<usize> = None;
    let mut j = i + 1;
    while j < n && tree.node(j).depth > d
        invariant
            ns == tree@,
            n == ns.len(),
            d == ns[i as int].5,
            i < j <= n,
            last_kind_child(ns, i as int, i + 1, k@) == match last_kind_child(ns, i as int, j as int, k@) {
                Some(x) => Some(x),
                None => crate::parser::syntax::found(last),
            },
            last matches Some(x) ==> i < x < j,
        decreases n - j,
    {
        let nj = tree.node(j);
        if nj.depth == d + 1 && str_eq(nj.kind.as_str(), k) {
            last = Some(j);
        }
        j += 1;
    }
    last
}

// The named-import locals of `named_imports` node `m`.
fn specifier_names_at(tree: &SyntaxTree, m: usize, source: &str) -> (r: Vec<String>)
    requires
        m < tree@.len(),
    ensures
        r@.map_values(|s: String| s@) == specifier_names(tree@, utf8(source@), m as int, m + 1),
{
    let ghost ns = tree@;
    let ghost src = utf8(source@);
    let n = tree.len();
    let d = tree.node(m).depth;
    let mut out: Vec<String> = Vec::new();
    let mut j = m + 1;
    while j < n && tree.node(j).depth > d
        invariant
            ns == tree@,
            src == utf8(source@),
            n == ns.len(),
            d == ns[m as int].5,
            m < j <= n,
            out@.map_values(|s: String| s@) + specifier_names(ns, src, m as int, j as int)
                == specifier_names(ns, src, m as int, m + 1),
        decreases n - j,
    {
        let nj = tree.node(j);
        let ghost before = out@;
        if nj.depth == d + 1 && str_eq(nj.kind.as_str(), "import_specifier") {
            match last_kind_child_at(tree, j, "identifier") {
                Some(x) => {
                    let t = tree.text(x, source);
                    out.push(t);
                    assert(out@.map_values(|s: String| s@) =~= before.map_values(|s: String| s@).push(node_str(ns[x as int], src)));
                },
                None => {},
            }
        }
        j += 1;
    }
    out
}

// The names one clause child binds.
fn child_names_at(tree: &SyntaxTree, j: usize, source: &str) -> (r: Vec<String>)
    requires
        j < tree@.len(),
    ensures
        r@.map_values(|s: String| s@) == child_names(tree@, utf8(source@), j as int),
{
    let ghost ns = tree@;
    let ghost src = utf8(source@);
    let k = tree.node(j).kind.as_str();
    if str_eq(k, "identifier") {
        let r = vec![tree.text(j, source)];
        assert(r@.map_values(|s: String| s@) =~= seq![node_str(ns[j as int], src)]);
        r
    } else if str_eq(k, "namespace_import") {
        match last_kind_child_at(tree, j, "identifier") {
            Some(x) => {
                let r = vec![tree.text(x, source)];
                assert(r@.map_values(|s: String| s@) =~= seq![node_str(ns[x as int], src)]);
                r
            },
            None => {
                let r: Vec<String> = Vec::new();
                assert(r@.map_values(|s: String| s@) =~= Seq::<Seq<char>>::empty());
                r
            },
        }
    } else if str_eq(k, "named_imports") {
        specifier_names_at(tree, j, source)
    } else {
        let r: Vec<String> = Vec::new();
        assert(r@.map_values(|s: String| s@) =~= Seq::<Seq<char>>::empty());
        r
    }
}

// Every local name clause `c` binds.
fn clause_names_at(tree: &SyntaxTree, c: usize, source: &str) -> (r: Vec<String>)
    requires
        c < tree@.len(),
    ensures
        r@.map_values(|s: String| s@) == clause_names(tree@, utf8(source@), c as int, c + 1),
{
    let ghost ns = tree@;
    let ghost src = utf8(source@);
    let n = tree.len();
    let d = tree.node(c).depth;
    let mut out: Vec<String> = Vec::new();
    let mut j = c + 1;
    while j < n && tree.node(j).depth > d
        invariant
            ns == tree@,
            src == utf8(source@),
            n == ns.len(),
            d == ns[c as int].5,
            c < j <= n,
            out@.map_values(|s: String| s@) + clause_names(ns, src, c as int, j as int)
                == clause_names(ns, src, c as int, c + 1),
        decreases n - j,
    {
        let ghost before = out@.map_values(|s: String| s@);
        if tree.node(j).depth == d + 1 {
            let more = child_names_at(tree, j, source);
            let mut q: usize = 0;
            while q < more.len()
                invariant
                    q <= more@.len(),
                    out@.map_values(|s: String| s@) == before + more@.map_values(|s: String| s@).take(q as int),
                decreases more.len() - q,
            {
                let ghost b2 = out@;
                out.push(more[q].clone());
                assert(out@.map_values(|s: String| s@) =~= b2.map_values(|s: String| s@).push(more@[q as int]@));
                assert(more@.map_values(|s: String| s@).take(q + 1) =~= more@.map_values(|s: String| s@).take(q as int).push(more@[q as int]@));
                q += 1;
            }
            assert(more@.map_values(|s: String| s@).take(more@.len() as int) =~= more@.map_values(|s: String| s@));
            assert(before + (child_names(ns, src, j as int) + clause_names(ns, src, c as int, j + 1))
                =~= (before + child_names(ns, src, j as int)) + clause_names(ns, src, c as int, j + 1));
        }
        j += 1;
    }
    proof {
        assert(clause_names(ns, src, c as int, j as int) =~= Seq::<Seq<char>>::empty());
        assert(out@.map_values(|s: String| s@) + Seq::<Seq<char>>::empty() =~= out@.map_values(|s: String| s@));
    }
    out
}

// Whether some name occurs outside the statement `start..end`.
fn any_used(names: &Vec<String>, src: &[u8], start: usize, end: usize) -> (r: bool)
    ensures
        r == exists|k: int| 0 <= k < names@.len() && word_occurs(src@, utf8(#[trigger] names@[k]@), start as int, end as int),
{
    let mut k: usize = 0;
    while k < names.len()
        invariant
            k <= names@.len(),
            forall|j: int| 0 <= j < k ==> !word_occurs(src@, utf8(#[trigger] names@[j]@), start as int, end as int),
        decreases names.len() - k,
    {
        let w = names[k].as_str();
        proof {
            lemma_str_bytes(w);
        }
        if occurs_outside(src, w.as_bytes(), start, end) {
            return true;
        }
        k += 1;
    }
    false
}

// The names joined by `, `.
fn join_names(names: &Vec<String>) -> (r: String)
    ensures
        r@ == join(names@.map_values(|s: String| s@), ", "@),
{
    let mut parts: Vec<Vec<char>> = Vec::new();
    let mut i: usize = 0;
    while i < names.len()
        invariant
            i <= names@.len(),
            crate::path::views(parts@) == names@.map_values(|s: String| s@).take(i as int),
        decreases names.len() - i,
    {
        let ghost before = parts@;
        parts.push(chars_of(names[i].as_str()));
        assert(crate::path::views(parts@) =~= crate::path::views(before).push(names@[i as int]@));
        assert(names@.map_values(|s: String| s@).take(i + 1) =~= names@.map_values(|s: String| s@).take(i as int).push(names@[i as int]@));
        i += 1;
    }
    assert(names@.map_values(|s: String| s@).take(names@.len() as int) =~= names@.map_values(|s: String| s@));
    let sep = chars_of(", ");
    string_of(crate::path::join_chars(parts.as_slice(), sep.as_slice()).as_slice())
}

// The candidate of import statement `i`, as in [`candidate`].
fn candidate_at(tree: &SyntaxTree, i: usize, source: &str) -> (r: Option<FixCandidate>)
    requires
        i < tree@.len(),
    ensures
        match r {
            Some(c) => candidate(tree@, utf8(source@), i as int) == Some(fix_view(c)),
            None => candidate(tree@, utf8(source@), i as int) is None,
        },
{
    let ghost ns = tree@;
    let ghost src = utf8(source@);
    let c = match tree.kind_child(i, "import_clause") {
        Some(c) => c,
        None => return None,
    };
    let names = clause_names_at(tree, c, source);
    let ghost nv = names@.map_values(|s: String| s@);
    if names.len() == 0 {
        return None;
    }
    let bytes = source.as_bytes();
    proof {
        lemma_str_bytes(source);
    }
    let node = tree.node(i);
    if any_used(&names, bytes, node.start, node.end) {
        assert(exists|k: int| 0 <= k < nv.len() && word_occurs(src, utf8(#[trigger] nv[k]), ns[i as int].3, ns[i as int].4)) by {
            let k = choose|k: int| 0 <= k < names@.len() && word_occurs(src, utf8(#[trigger] names@[k]@), node.start as int, node.end as int);
            assert(nv[k] == names@[k]@);
        }
        return None;
    }
    assert(!exists|k: int| 0 <= k < nv.len() && word_occurs(src, utf8(#[trigger] nv[k]), ns[i as int].3, ns[i as int].4)) by {
        if exists|k: int| 0 <= k < nv.len() && word_occurs(src, utf8(#[trigger] nv[k]), ns[i as int].3, ns[i as int].4) {
            let k = choose|k: int| 0 <= k < nv.len() && word_occurs(src, utf8(#[trigger] nv[k]), ns[i as int].3, ns[i as int].4);
            assert(nv[k] == names@[k]@);
        }
    }
    let s = node.start;
    let e = line_end_of(bytes, node.end);
    let old_text = match span_text(source, s, e) {
        Some(t) => t,
        None => return None,
    };
    proof {
        broadcast use vstd::utf8::encode_utf8_decode_utf8;
    }
    let mut message = String::from_str("unused import [");
    push_str(&mut message, join_names(&names).as_str());
    push_str(&mut message, "]");
    let edits = vec![Edit { span: s..e, old_text, new_text: String::new() }];
    let cand = FixCandidate {
        rule: RULE,
        message,
        severity: Severity::Warning,
        auto_fixable: true,
        span: s..e,
        edits,
        candidates: Vec::new(),
    };
    proof {
        assert(crate::engine::apply::fsops::edit_views(cand.edits@) =~= seq![(s as int, e as int, vstd::utf8::decode_utf8(src.subrange(s as int, e as int)), Seq::<char>::empty())]);
        assert(crate::order::texts(cand.candidates@) =~= Seq::<Seq<char>>::empty());
    }
    Some(cand)
}

/// The rule's candidates over a parsed file.
pub fn tree_fixes(tree: &SyntaxTree, source: &str) -> (r: Vec<FixCandidate>)
    ensures
        fix_views(r@) == collect(tree@, utf8(source@), tree@.len() as int),
{
    let ghost ns = tree@;
    let ghost src = utf8(source@);
    let n = tree.len();
    let mut out: Vec<FixCandidate> = Vec::new();
    let mut j: usize = 0;
    while j < n
        invariant
            ns == tree@,
            src == utf8(source@),
            n == ns.len(),
            j <= n,
            fix_views(out@) == collect(ns, src, j as int),
        decreases n - j,
    {
        let node = tree.node(j);
        if j >= 1 && node.depth == 1 && str_eq(node.kind.as_str(), "import_statement") {
            match candidate_at(tree, j, source) {
                Some(c) => {
                    let ghost before = out@;
                    out.push(c);
                    assert(fix_views(out@) =~= fix_views(before).push(fix_view(c)));
                },
                None => {},
            }
        }
        j += 1;
    }
    out
}

/// Unused imported-binding remover for TS/JS/TSX.
pub struct TsUnusedImports;

impl TsUnusedImports {
    /// Create the rule.
    pub fn new() -> (r: Self) {
        TsUnusedImports
    }
}

impl Default for TsUnusedImports {
    fn default() -> (r: Self) {
        TsUnusedImports
    }
}

impl Fix for TsUnusedImports {
    open spec fn rule_spec(&self) -> Seq<char> {
        RULE@
    }

    open spec fn fixes_spec(&self, path: Seq<char>, source: Seq<char>, index: Index) -> Seq<FixView> {
        fixes_spec(path, source)
    }

    fn rule(&self) -> (r: &'static str) {
        RULE
    }

    fn fixes(&self, path: &str, source: &str, index: &Index) -> (r: Vec<FixCandidate>) {
        let lang = match SourceLanguage::for_path(path) {
            Some(l) => l,
            None => SourceLanguage::TypeScript,
        };
        match SyntaxTree::parse(grammar(lang), source) {
            Some(tree) => tree_fixes(&tree, source),
            None => {
                let r: Vec<FixCandidate> = Vec::new();
                assert(fix_views(r@) =~= Seq::<FixView>::empty());
                r
            },
        }
    }
}

} // verus!

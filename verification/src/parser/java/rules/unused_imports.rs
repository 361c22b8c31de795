//! Java rule: drop single-type imports whose simple name is never used.
//!
//! Detection is the raw word-boundary scan of [`crate::parser::words`]
//! over the whole file, never an AST usage analysis: a type referenced
//! only in javadoc or a string literal keeps its import, and so does an
//! import whose name appears in a sibling import (e.g. the static member
//! import of the same type). The deletion covers the whole statement plus
//! its line ending (CRLF-aware); leading indentation is not absorbed.

use vstd::prelude::*;

use crate::engine::index::Index;
use crate::engine::Edit;
use crate::parser::java::extract::top_level;
use crate::parser::java::rules::{is_static_line, owner_of, static_line};
use crate::parser::java::{owner_name, simple_name, simple_of};
use crate::parser::syntax::{kind_child, node_str, parsed_nodes, tree_wf, Grammar, NodeView, SyntaxTree};
use crate::parser::words::{line_end, line_end_of, occurs_outside, word_occurs};
use crate::parser::{fix_view, fix_views, Fix, FixCandidate, FixView, Severity};
use crate::text::{char_boundary, lemma_str_bytes, push_str, span_text, str_eq, utf8};

verus! {

/// Rule id accepted by `jmove fix --rule`.
pub const RULE: &'static str = "java/unused-import";

/// The text between byte offsets `s` and `e` is a valid slice of `src`.
pub open spec fn slice_ok(src: Seq<u8>, s: int, e: int) -> bool {
    0 <= s <= e <= src.len() && char_boundary(src, s) && char_boundary(src, e)
}

/// The names that keep an import alive: the simple name, or for a static
/// member import (`a.b.User.create`) the member and its owner's simple name
/// (`create`, `User`). A static import without an owner has none.
pub open spec fn used_names(specifier: Seq<char>, is_static: bool) -> Option<Seq<Seq<char>>> {
    if is_static {
        match owner_name(specifier) {
            Some(o) => Some(seq![simple_name(specifier), simple_name(o)]),
            None => None,
        }
    } else {
        Some(seq![simple_name(specifier)])
    }
}

/// The candidate for import declaration `i`: when none of its used names
/// occurs outside the statement, delete the statement and its line end.
pub open spec fn candidate(ns: Seq<NodeView>, src: Seq<u8>, i: int) -> Option<FixView> {
    match kind_child(ns, i, i + 1, "scoped_identifier"@) {
        None => None,
        Some(p) => {
            let specifier = node_str(ns[p], src);
            match used_names(specifier, is_static_line(node_str(ns[i], src))) {
                None => None,
                Some(names) => if exists|k: int| 0 <= k < names.len()
                    && word_occurs(src, utf8(#[trigger] names[k]), ns[i].3, ns[i].4) {
                    None
                } else {
                    let s = ns[i].3;
                    let e = line_end(src, ns[i].4);
                    if slice_ok(src, s, e) {
                        Some((
                            RULE@,
                            "unused import '"@ + specifier + "'"@,
                            Severity::Warning,
                            true,
                            s,
                            e,
                            seq![(s, e, vstd::utf8::decode_utf8(src.subrange(s, e)), Seq::<char>::empty())],
                            Seq::<Seq<char>>::empty(),
                        ))
                    } else {
                        None
                    }
                },
            }
        },
    }
}

/// The candidates of the first `n` nodes: single-type and static imports
/// (never `pkg.*`), in source order.
pub open spec fn collect(ns: Seq<NodeView>, src: Seq<u8>, n: int) -> Seq<FixView>
    decreases n,
{
    if n <= 0 {
        Seq::empty()
    } else {
        let prev = collect(ns, src, n - 1);
        let j = n - 1;
        if top_level(ns, j, "import_declaration"@) && kind_child(ns, j, j + 1, "asterisk"@) is None {
            match candidate(ns, src, j) {
                Some(c) => prev.push(c),
                None => prev,
            }
        } else {
            prev
        }
    }
}

/// What the rule proposes for `source`.
pub open spec fn fixes_spec(source: Seq<char>) -> Seq<FixView> {
    match parsed_nodes(Grammar::Java, source) {
        Some(ns) => if tree_wf(ns) {
            collect(ns, utf8(source), ns.len() as int)
        } else {
            Seq::empty()
        },
        None => Seq::empty(),
    }
}

// Whether some used name occurs outside the statement `start..end`.
fn any_used(names: &Vec<String>, src: &[u8], start: usize, end: usize) -> (r: bool)
    ensures
        r == exists|k: int| 0 <= k < names@.len() && word_occurs(src@, utf8(#[trigger] names@[k]@), start as int, end as int),
{
    let mut k: usize = 0;
    while k < names.len()
        invariant
            k <= names@.len(),
            forall|j: int| 0 <= j < k ==> !word_occurs(src@, utf8(#[trigger] names@[j]@), start as int, end as int),
        decreases names.len() - k,
    {
        let w = names[k].as_str();
        proof {
            lemma_str_bytes(w);
        }
        if occurs_outside(src, w.as_bytes(), start, end) {
            return true;
        }
        k += 1;
    }
    false
}

// The candidate of import declaration `i`, as in [`candidate`].
fn candidate_at(tree: &SyntaxTree, i: usize, source: &str) -> (r: Option<FixCandidate>)
    requires
        i < tree@.len(),
    ensures
        match r {
            Some(c) => candidate(tree@, utf8(source@), i as int) == Some(fix_view(c)),
            None => candidate(tree@, utf8(source@), i as int) is None,
        },
{
    let ghost ns = tree@;
    let ghost src = utf8(source@);
    let p = match tree.kind_child(i, "scoped_identifier") {
        Some(p) => p,
        None => return None,
    };
    let specifier = tree.text(p, source);
    let stmt = tree.text(i, source);
    let names: Vec<String> = if static_line(stmt.as_str()) {
        match owner_of(specifier.as_str()) {
            Some(o) => vec![simple_of(specifier.as_str()), simple_of(o.as_str())],
            None => return None,
        }
    } else {
        vec![simple_of(specifier.as_str())]
    };
    let ghost nv = used_names(specifier@, is_static_line(stmt@))->0;
    assert(names@.map_values(|s: String| s@) =~= nv);
    let bytes = source.as_bytes();
    proof {
        lemma_str_bytes(source);
    }
    let node = tree.node(i);
    if any_used(&names, bytes, node.start, node.end) {
        assert(exists|k: int| 0 <= k < nv.len() && word_occurs(src, utf8(#[trigger] nv[k]), ns[i as int].3, ns[i as int].4)) by {
            let k = choose|k: int| 0 <= k < names@.len() && word_occurs(src, utf8(#[trigger] names@[k]@), node.start as int, node.end as int);
            assert(nv[k] == names@[k]@);
        }
        return None;
    }
    assert(!exists|k: int| 0 <= k < nv.len() && word_occurs(src, utf8(#[trigger] nv[k]), ns[i as int].3, ns[i as int].4)) by {
        if exists|k: int| 0 <= k < nv.len() && word_occurs(src, utf8(#[trigger] nv[k]), ns[i as int].3, ns[i as int].4) {
            let k = choose|k: int| 0 <= k < nv.len() && word_occurs(src, utf8(#[trigger] nv[k]), ns[i as int].3, ns[i as int].4);
            assert(nv[k] == names@[k]@);
        }
    }
    let s = node.start;
    let e = line_end_of(bytes, node.end);
    let old_text = match span_text(source, s, e) {
        Some(t) => t,
        None => return None,
    };
    proof {
        broadcast use vstd::utf8::encode_utf8_decode_utf8;
    }
    let mut message = String::from_str("unused import '");
    push_str(&mut message, specifier.as_str());
    push_str(&mut message, "'");
    let edits = vec![Edit { span: s..e, old_text, new_text: String::new() }];
    let c = FixCandidate {
        rule: RULE,
        message,
        severity: Severity::Warning,
        auto_fixable: true,
        span: s..e,
        edits,
        candidates: Vec::new(),
    };
    proof {
        assert(crate::engine::apply::fsops::edit_views(c.edits@) =~= seq![(s as int, e as int, vstd::utf8::decode_utf8(src.subrange(s as int, e as int)), Seq::<char>::empty())]);
        assert(crate::order::texts(c.candidates@) =~= Seq::<Seq<char>>::empty());
    }
    Some(c)
}

/// The rule's candidates over a parsed file.
pub fn tree_fixes(tree: &SyntaxTree, source: &str) -> (r: Vec<FixCandidate>)
    ensures
        fix_views(r@) == collect(tree@, utf8(source@), tree@.len() as int),
{
    let ghost ns = tree@;
    let ghost src = utf8(source@);
    let n = tree.len();
    let mut out: Vec<FixCandidate> = Vec::new();
    let mut j: usize = 0;
    while j < n
        invariant
            ns == tree@,
            src == utf8(source@),
            n == ns.len(),
            j <= n,
            fix_views(out@) == collect(ns, src, j as int),
        decreases n - j,
    {
        let node = tree.node(j);
        if j >= 1 && node.depth == 1 && str_eq(node.kind.as_str(), "import_declaration")
            && tree.kind_child(j, "asterisk").is_none() {
            match candidate_at(tree, j, source) {
                Some(c) => {
                    let ghost before = out@;
                    out.push(c);
                    assert(fix_views(out@) =~= fix_views(before).push(fix_view(c)));
                },
                None => {},
            }
        }
        j += 1;
    }
    out
}

/// Unused single-type import remover.
pub struct JavaUnusedImports;

impl JavaUnusedImports {
    /// Create the rule.
    pub fn new() -> (r: Self) {
        JavaUnusedImports
    }
}

impl Default for JavaUnusedImports {
    fn default() -> (r: Self) {
        JavaUnusedImports
    }
}

impl Fix for JavaUnusedImports {
    open spec fn rule_spec(&self) -> Seq<char> {
        RULE@
    }

    open spec fn fixes_spec(&self, path: Seq<char>, source: Seq<char>, index: Index) -> Seq<FixView> {
        fixes_spec(source)
    }

    fn rule(&self) -> (r: &'static str) {
        RULE
    }

    fn fixes(&self, path: &str, source: &str, index: &Index) -> (r: Vec<FixCandidate>) {
        match SyntaxTree::parse(Grammar::Java, source) {
            Some(tree) => tree_fixes(&tree, source),
            None => {
                let r: Vec<FixCandidate> = Vec::new();
                assert(fix_views(r@) =~= Seq::<FixView>::empty());
                r
            },
        }
    }
}

} // verus!

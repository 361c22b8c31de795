//! Java layout check: the single public top-level type must match the file
//! name (javac: "class Foo is public, should be declared in a file named
//! Foo.java").
//!
//! This is a finding, not a fix rule: the repair is a file rename, and the
//! fix engine applies byte edits only. The check report pairs it with the
//! move that repairs the layout — the moved class keeps its FQN, so
//! renaming the file rewrites no imports.

use vstd::prelude::*;

use crate::parser::syntax::{kind_child, node_str, parsed_nodes, tree_wf, Grammar, NodeView, SyntaxTree};
use crate::path::{file_stem, file_stem_of};
use crate::text::{chars_eq, chars_of, str_eq, utf8};

verus! {

/// The mismatch details: the public type's name and the span of its name
/// token.
pub struct Mismatch {
    /// Name of the single public top-level type.
    pub public_class: String,
    /// Byte span of the class name token.
    pub span: std::ops::Range<usize>,
}

/// Kinds that introduce a top-level type.
pub open spec fn type_kind(k: Seq<char>) -> bool {
    k == "class_declaration"@ || k == "interface_declaration"@ || k == "enum_declaration"@
        || k == "record_declaration"@ || k == "annotation_type_declaration"@
}

/// `public` (an anonymous token) sits inside the node's `modifiers` child.
pub open spec fn is_public(ns: Seq<NodeView>, i: int) -> bool {
    match kind_child(ns, i, i + 1, "modifiers"@) {
        Some(m) => kind_child(ns, m, m + 1, "public"@) is Some,
        None => false,
    }
}

/// The public top-level types among the first `n` nodes.
pub open spec fn publics(ns: Seq<NodeView>, n: int) -> Seq<int>
    decreases n,
{
    if n <= 0 {
        Seq::empty()
    } else {
        let prev = publics(ns, n - 1);
        let j = n - 1;
        if j >= 1 && ns[j].5 == 1 && type_kind(ns[j].0) && is_public(ns, j) {
            prev.push(j)
        } else {
            prev
        }
    }
}

/// The mismatch of a parsed file against the file stem: exactly one
/// public type, whose name token differs from the stem.
pub open spec fn tree_mismatch(ns: Seq<NodeView>, src: Seq<u8>, stem: Seq<char>) -> Option<(Seq<char>, int, int)> {
    let ps = publics(ns, ns.len() as int);
    if ps.len() != 1 {
        None
    } else {
        match kind_child(ns, ps[0], ps[0] + 1, "identifier"@) {
            None => None,
            Some(x) => if node_str(ns[x], src) != stem {
                Some((node_str(ns[x], src), ns[x].3, ns[x].4))
            } else {
                None
            },
        }
    }
}

/// What [`mismatch`] reports for `path` with contents `source`:
/// `package-info` and `module-info` files never name a type.
pub open spec fn mismatch_spec(path: Seq<char>, source: Seq<char>) -> Option<(Seq<char>, int, int)> {
    match file_stem_of(path) {
        None => None,
        Some(stem) => if stem == "package-info"@ || stem == "module-info"@ {
            None
        } else {
            match parsed_nodes(Grammar::Java, source) {
                Some(ns) => if tree_wf(ns) {
                    tree_mismatch(ns, utf8(source), stem)
                } else {
                    None
                },
                None => None,
            }
        },
    }
}

/// The view of a mismatch.
pub open spec fn mismatch_view(m: Option<Mismatch>) -> Option<(Seq<char>, int, int)> {
    match m {
        Some(x) => Some((x.public_class@, x.span.start as int, x.span.end as int)),
        None => None,
    }
}

// Whether node `i` is public.
fn public_at(tree: &SyntaxTree, i: usize) -> (r: bool)
    requires
        i < tree@.len(),
    ensures
        r == is_public(tree@, i as int),
{
    match tree.kind_child(i, "modifiers") {
        Some(m) => tree.kind_child(m, "public").is_some(),
        None => false,
    }
}

// The public top-level types.
fn public_types(tree: &SyntaxTree) -> (r: Vec<usize>)
    ensures
        r@.map_values(|j: usize| j as int) == publics(tree@, tree@.len() as int),
        forall|k: int| 0 <= k < r@.len() ==> r@[k] < tree@.len(),
{
    let n = tree.len();
    let mut out: Vec<usize> = Vec::new();
    let mut j: usize = 0;
    while j < n
        invariant
            n == tree@.len(),
            j <= n,
            out@.map_values(|x: usize| x as int) == publics(tree@, j as int),
            forall|k: int| 0 <= k < out@.len() ==> out@[k] < j,
        decreases n - j,
    {
        let node = tree.node(j);
        let k = node.kind.as_str();
        let is_type = str_eq(k, "class_declaration") || str_eq(k, "interface_declaration") || str_eq(k, "enum_declaration")
            || str_eq(k, "record_declaration") || str_eq(k, "annotation_type_declaration");
        if j >= 1 && node.depth == 1 && is_type && public_at(tree, j) {
            let ghost before = out@;
            out.push(j);
            assert(out@.map_values(|x: usize| x as int) =~= before.map_values(|x: usize| x as int).push(j as int));
        }
        j += 1;
    }
    out
}

/// `Some` when the file declares exactly one public top-level type whose
/// name differs from the file stem. Two public types (also illegal) or
/// none are not this check's business.
pub fn mismatch(path: &str, source: &str) -> (r: Option<Mismatch>)
    ensures
        mismatch_view(r) == mismatch_spec(path@, source@),
{
    let stem = match file_stem(path) {
        Some(s) => s,
        None => return None,
    };
    if chars_eq(stem.as_slice(), chars_of("package-info").as_slice()) || chars_eq(stem.as_slice(), chars_of("module-info").as_slice()) {
        return None;
    }
    let tree = match SyntaxTree::parse(Grammar::Java, source) {
        Some(t) => t,
        None => return None,
    };
    let ps = public_types(&tree);
    if ps.len() != 1 {
        return None;
    }
    let only = ps[0];
    assert(publics(tree@, tree@.len() as int)[0] == only as int);
    let x = match tree.kind_child(only, "identifier") {
        Some(x) => x,
        None => return None,
    };
    let name = tree.text(x, source);
    if chars_eq(chars_of(name.as_str()).as_slice(), stem.as_slice()) {
        return None;
    }
    let node = tree.node(x);
    Some(Mismatch { public_class: name, span: node.start..node.end })
}

} // verus!

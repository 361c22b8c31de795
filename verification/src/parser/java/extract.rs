//! Java `package` declaration and `import` extraction over the tree-sitter
//! Java grammar. The grammar gives import and package nodes no field
//! names: the dotted path is the single `scoped_identifier` child (a
//! one-segment package name is a bare `identifier`). On-demand `pkg.*`
//! imports are not extracted: a single-type move never invalidates them.

use vstd::prelude::*;

use crate::parser::syntax::{kind_child, node_text, parsed_nodes, tree_wf, Grammar, NodeView, SyntaxTree};
use crate::parser::{record_view, record_views, ImportRecord, PackageDecl, RecordView};
use crate::text::{str_eq, utf8};

verus! {

/// A package declaration as the contracts see it: the UTF-8 bytes of the
/// name, span start and end.
pub type PackageView = (Seq<u8>, int, int);

/// The view of an optional package declaration.
pub open spec fn package_view(p: Option<PackageDecl>) -> Option<PackageView> {
    match p {
        Some(d) => Some((utf8(d.name@), d.span.start as int, d.span.end as int)),
        None => None,
    }
}

/// The record of import declaration `i`: none for `pkg.*`, else its dotted
/// path (its text, or nothing when the span is not a valid slice).
pub open spec fn import_record(ns: Seq<NodeView>, src: Seq<u8>, i: int) -> Option<RecordView> {
    if kind_child(ns, i, i + 1, "asterisk"@) is Some {
        None
    } else {
        match kind_child(ns, i, i + 1, "scoped_identifier"@) {
            Some(c) => Some((node_text(ns[c], src), ns[c].3, ns[c].4, false)),
            None => None,
        }
    }
}

/// Node `j` is a top-level declaration of kind `k`.
pub open spec fn top_level(ns: Seq<NodeView>, j: int, k: Seq<char>) -> bool {
    1 <= j < ns.len() && ns[j].5 == 1 && ns[j].0 == k
}

/// The records of the top-level import declarations among the first `n`
/// nodes, in order.
pub open spec fn collect(ns: Seq<NodeView>, src: Seq<u8>, n: int) -> Seq<RecordView>
    decreases n,
{
    if n <= 0 {
        Seq::empty()
    } else {
        let prev = collect(ns, src, n - 1);
        if top_level(ns, n - 1, "import_declaration"@) {
            match import_record(ns, src, n - 1) {
                Some(r) => prev.push(r),
                None => prev,
            }
        } else {
            prev
        }
    }
}

/// The package declaration of a parsed file: the first top-level
/// `package_declaration`, named by its scoped identifier or else its
/// identifier.
pub open spec fn tree_package(ns: Seq<NodeView>, src: Seq<u8>) -> Option<PackageView> {
    match kind_child(ns, 0, 1, "package_declaration"@) {
        None => None,
        Some(d) => {
            let name = match kind_child(ns, d, d + 1, "scoped_identifier"@) {
                Some(c) => Some(c),
                None => kind_child(ns, d, d + 1, "identifier"@),
            };
            match name {
                Some(c) => Some((node_text(ns[c], src), ns[c].3, ns[c].4)),
                None => None,
            }
        },
    }
}

/// What [`TreeSitterJava::extract_imports`] returns for `source`.
pub open spec fn imports_spec(source: Seq<char>) -> Seq<RecordView> {
    match parsed_nodes(Grammar::Java, source) {
        Some(ns) => if tree_wf(ns) {
            collect(ns, utf8(source), ns.len() as int)
        } else {
            Seq::empty()
        },
        None => Seq::empty(),
    }
}

/// What [`TreeSitterJava::extract_package`] returns for `source`.
pub open spec fn package_spec(source: Seq<char>) -> Option<PackageView> {
    match parsed_nodes(Grammar::Java, source) {
        Some(ns) => if tree_wf(ns) {
            tree_package(ns, utf8(source))
        } else {
            None
        },
        None => None,
    }
}

/// The record of import declaration `i`, as in [`import_record`].
pub fn import_record_at(tree: &SyntaxTree, i: usize, source: &str) -> (r: Option<ImportRecord>)
    requires
        i < tree@.len(),
    ensures
        crate::parser::record_view_opt(r) == import_record(tree@, utf8(source@), i as int),
{
    if tree.kind_child(i, "asterisk").is_some() {
        return None;
    }
    match tree.kind_child(i, "scoped_identifier") {
        Some(c) => {
            let node = tree.node(c);
            Some(ImportRecord { specifier: tree.text(c, source), span: node.start..node.end, is_dynamic: false })
        },
        None => None,
    }
}

/// The imports of a parsed Java file, in source order.
pub fn tree_imports(tree: &SyntaxTree, source: &str) -> (r: Vec<ImportRecord>)
    ensures
        record_views(r@) == collect(tree@, utf8(source@), tree@.len() as int),
{
    let ghost ns = tree@;
    let ghost src = utf8(source@);
    let n = tree.len();
    let mut out: Vec<ImportRecord> = Vec::new();
    let mut j: usize = 0;
    while j < n
        invariant
            ns == tree@,
            src == utf8(source@),
            n == ns.len(),
            j <= n,
            record_views(out@) == collect(ns, src, j as int),
        decreases n - j,
    {
        let node = tree.node(j);
        if j >= 1 && node.depth == 1 && str_eq(node.kind.as_str(), "import_declaration") {
            match import_record_at(tree, j, source) {
                Some(rec) => {
                    let ghost before = out@;
                    out.push(rec);
                    assert(record_views(out@) =~= record_views(before).push(record_view(rec)));
                },
                None => {},
            }
        }
        j += 1;
    }
    out
}

/// The package declaration of a parsed Java file.
pub fn tree_package_decl(tree: &SyntaxTree, source: &str) -> (r: Option<PackageDecl>)
    ensures
        package_view(r) == tree_package(tree@, utf8(source@)),
{
    tree.shape();
    let d = match tree.kind_child(0, "package_declaration") {
        Some(d) => d,
        None => return None,
    };
    let name = match tree.kind_child(d, "scoped_identifier") {
        Some(c) => Some(c),
        None => tree.kind_child(d, "identifier"),
    };
    match name {
        Some(c) => {
            let node = tree.node(c);
            Some(PackageDecl { name: tree.text(c, source), span: node.start..node.end })
        },
        None => None,
    }
}

/// Frontend backed by the tree-sitter Java grammar.
pub struct TreeSitterJava;

impl TreeSitterJava {
    /// Create the Java frontend.
    pub fn new() -> (r: Self) {
        TreeSitterJava
    }

    /// The single-type and static imports of `source`, in source order;
    /// nothing when the parser refuses the grammar.
    pub fn extract_imports(&self, source: &str) -> (r: Vec<ImportRecord>)
        ensures
            record_views(r@) == imports_spec(source@),
    {
        match SyntaxTree::parse(Grammar::Java, source) {
            Some(tree) => tree_imports(&tree, source),
            None => {
                let r: Vec<ImportRecord> = Vec::new();
                assert(record_views(r@) =~= Seq::<RecordView>::empty());
                r
            },
        }
    }

    /// The `package` declaration of `source`, if it has one.
    pub fn extract_package(&self, source: &str) -> (r: Option<PackageDecl>)
        ensures
            package_view(r) == package_spec(source@),
    {
        match SyntaxTree::parse(Grammar::Java, source) {
            Some(tree) => tree_package_decl(&tree, source),
            None => None,
        }
    }
}

impl Default for TreeSitterJava {
    fn default() -> (r: Self) {
        TreeSitterJava
    }
}

} // verus!

//! Syntax trees through tree-sitter, flattened: a parsed file is the
//! sequence of its nodes in pre-order (the order of
//! `TreeCursor::goto_descendant`), each with its kind, the field name it
//! has under its parent, whether it is named, its byte span and its depth
//! below the root. The frontends and rules read this sequence; the calls
//! into tree-sitter stay in the three wrappers at the top of this file.

use vstd::prelude::*;

use crate::text::{char_boundary, span_text, str_eq, utf8};

verus! {

#[verifier::external_type_specification]
#[verifier::external_body]
pub struct ExTree(tree_sitter::Tree);

/// The grammars the frontends parse with.
#[derive(Debug, Clone, Copy, PartialEq, Eq, Structural)]
pub enum Grammar {
    /// tree-sitter-java.
    Java,
    /// tree-sitter-typescript, TypeScript dialect (also reads plain JS).
    TypeScript,
    /// tree-sitter-typescript, TSX dialect (JSX syntax).
    Tsx,
}

/// A node as the contracts see it: kind, field name under its parent,
/// named, start byte, end byte, depth.
pub type NodeView = (Seq<char>, Option<Seq<char>>, bool, int, int, int);

/// One node of a flattened syntax tree.
pub struct SyntaxNode {
    /// The grammar's node kind, e.g. `import_statement`.
    pub kind: String,
    /// The field this node fills in its parent, if any.
    pub field: Option<String>,
    /// Named node (as opposed to an anonymous token).
    pub named: bool,
    /// First byte of the node.
    pub start: usize,
    /// One past the last byte of the node.
    pub end: usize,
    /// Distance from the root (the root has depth 0).
    pub depth: usize,
}

impl SyntaxNode {
    /// The node as the contracts see it.
    pub open spec fn view_of(&self) -> NodeView {
        (
            self.kind@,
            match self.field {
                Some(f) => Some(f@),
                None => None,
            },
            self.named,
            self.start as int,
            self.end as int,
            self.depth as int,
        )
    }
}

/// The views of a node sequence.
pub open spec fn node_views(s: Seq<SyntaxNode>) -> Seq<NodeView> {
    s.map_values(|n: SyntaxNode| n.view_of())
}

/// What tree-sitter produces for `source` under `grammar`: `None` when the
/// parser refuses the grammar, else the nodes of the tree in pre-order.
pub uninterp spec fn parsed_nodes(grammar: Grammar, source: Seq<char>) -> Option<Seq<NodeView>>;

/// The nodes of a parsed tree, in pre-order.
pub uninterp spec fn tree_nodes(tree: tree_sitter::Tree) -> Seq<NodeView>;

/// Parses `source` with a fresh `tree_sitter::Parser` set to the grammar
/// (`Parser::new`, `Parser::set_language`, `Parser::parse` without an old
/// tree). Claims that the outcome is a function of the grammar and the
/// text: no tree exactly when the language is refused, else the tree
/// whose nodes [`parsed_nodes`] names.
#[verifier::external_body]
fn parse_tree(grammar: Grammar, source: &str) -> (r: Option<tree_sitter::Tree>)
    ensures
        r is Some <==> parsed_nodes(grammar, source@) is Some,
        r matches Some(t) ==> tree_nodes(t) == parsed_nodes(grammar, source@)->0,
{
    let language: tree_sitter::Language = match grammar {
        Grammar::Java => tree_sitter_java::LANGUAGE.into(),
        Grammar::TypeScript => tree_sitter_typescript::LANGUAGE_TYPESCRIPT.into(),
        Grammar::Tsx => tree_sitter_typescript::LANGUAGE_TSX.into(),
    };
    let mut parser = tree_sitter::Parser::new();
    if parser.set_language(&language).is_err() {
        return None;
    }
    parser.parse(source, None)
}

/// `Node::descendant_count` of the root: the number of nodes of the tree,
/// the root included.
#[verifier::external_body]
fn node_count(tree: &tree_sitter::Tree) -> (r: usize)
    ensures
        r == tree_nodes(*tree).len(),
{
    tree.root_node().descendant_count()
}

/// The node at pre-order index `i`: a cursor from `Tree::walk` moved there
/// by `TreeCursor::goto_descendant`, read through `TreeCursor::field_name`
/// and `TreeCursor::depth` and the node's `kind`, `is_named`, `start_byte`
/// and `end_byte`.
#[verifier::external_body]
fn node_at(tree: &tree_sitter::Tree, i: usize) -> (r: SyntaxNode)
    requires
        i < tree_nodes(*tree).len(),
    ensures
        r.view_of() == tree_nodes(*tree)[i as int],
{
    let mut cursor = tree.walk();
    cursor.goto_descendant(i);
    let node = cursor.node();
    let field = match cursor.field_name() {
        Some(f) => Some(f.to_string()),
        None => None,
    };
    let depth = cursor.depth() as usize;
    SyntaxNode { kind: node.kind().to_string(), field, named: node.is_named(), start: node.start_byte(), end: node.end_byte(), depth }
}

/// The shape every pre-order node sequence of a tree has: a root at depth
/// 0 first, and each later node at most one level below its predecessor
/// and never at the root's level.
pub open spec fn tree_wf(ns: Seq<NodeView>) -> bool {
    &&& ns.len() >= 1
    &&& ns[0].5 == 0
    &&& forall|i: int| 1 <= i < ns.len() ==> 1 <= #[trigger] ns[i].5 <= ns[i - 1].5 + 1
}

/// A parsed file as its node sequence.
pub struct SyntaxTree {
    nodes: Vec<SyntaxNode>,
}

impl View for SyntaxTree {
    type V = Seq<NodeView>;

    closed spec fn view(&self) -> Seq<NodeView> {
        node_views(self.nodes@)
    }
}

/// The first child of `i` (children scanned from index `j` on) whose field
/// name is `f`.
pub open spec fn field_child(ns: Seq<NodeView>, i: int, j: int, f: Seq<char>) -> Option<int>
    decreases ns.len() - j,
{
    if j >= ns.len() || j <= i || ns[j].5 <= ns[i].5 {
        None
    } else if ns[j].5 == ns[i].5 + 1 && ns[j].1 == Some(f) {
        Some(j)
    } else {
        field_child(ns, i, j + 1, f)
    }
}

/// The first child of `i` (scanned from `j` on) of kind `k`.
pub open spec fn kind_child(ns: Seq<NodeView>, i: int, j: int, k: Seq<char>) -> Option<int>
    decreases ns.len() - j,
{
    if j >= ns.len() || j <= i || ns[j].5 <= ns[i].5 {
        None
    } else if ns[j].5 == ns[i].5 + 1 && ns[j].0 == k {
        Some(j)
    } else {
        kind_child(ns, i, j + 1, k)
    }
}

/// The first named child of `i` (scanned from `j` on).
pub open spec fn named_child(ns: Seq<NodeView>, i: int, j: int) -> Option<int>
    decreases ns.len() - j,
{
    if j >= ns.len() || j <= i || ns[j].5 <= ns[i].5 {
        None
    } else if ns[j].5 == ns[i].5 + 1 && ns[j].2 {
        Some(j)
    } else {
        named_child(ns, i, j + 1)
    }
}

/// An index found by a child search, as an integer.
pub open spec fn found(r: Option<usize>) -> Option<int> {
    match r {
        Some(j) => Some(j as int),
        None => None,
    }
}

/// The bytes of a node when its span is a valid slice of `src` (in range,
/// on character boundaries), else nothing.
pub open spec fn node_text(v: NodeView, src: Seq<u8>) -> Seq<u8> {
    if 0 <= v.3 <= v.4 <= src.len() && char_boundary(src, v.3) && char_boundary(src, v.4) {
        src.subrange(v.3, v.4)
    } else {
        Seq::empty()
    }
}

/// The text of a node as characters (see [`node_text`]).
pub open spec fn node_str(v: NodeView, src: Seq<u8>) -> Seq<char> {
    vstd::utf8::decode_utf8(node_text(v, src))
}

/// The span of `v` is a valid slice of `src`.
pub open spec fn span_ok(v: NodeView, src: Seq<u8>) -> bool {
    0 <= v.3 <= v.4 <= src.len() && char_boundary(src, v.3) && char_boundary(src, v.4)
}

impl SyntaxTree {
    #[verifier::type_invariant]
    spec fn shaped(&self) -> bool {
        tree_wf(node_views(self.nodes@))
    }

    /// Every tree has the shape [`tree_wf`] describes.
    pub fn shape(&self)
        ensures
            tree_wf(self@),
    {
        proof {
            use_type_invariant(self);
        }
    }

    /// Parse `source` with `grammar`. `None` when tree-sitter refuses the
    /// grammar, or (never for a real tree) when the node sequence does not
    /// have the shape of a tree.
    pub fn parse(grammar: Grammar, source: &str) -> (r: Option<SyntaxTree>)
        ensures
            match parsed_nodes(grammar, source@) {
                Some(ns) => if tree_wf(ns) {
                    r matches Some(t) && t@ == ns
                } else {
                    r is None
                },
                None => r is None,
            },
    {
        let tree = match parse_tree(grammar, source) {
            Some(t) => t,
            None => return None,
        };
        let n = node_count(&tree);
        let ghost ns = tree_nodes(tree);
        let mut nodes: Vec<SyntaxNode> = Vec::new();
        let mut i: usize = 0;
        while i < n
            invariant
                n == ns.len(),
                ns == tree_nodes(tree),
                parsed_nodes(grammar, source@) == Some(ns),
                i <= n,
                node_views(nodes@) == ns.take(i as int),
            decreases n - i,
        {
            let node = node_at(&tree, i);
            let ghost v = node.view_of();
            let ghost before = nodes@;
            nodes.push(node);
            assert(node_views(nodes@) =~= node_views(before).push(v));
            assert(ns.take(i + 1) =~= ns.take(i as int).push(ns[i as int]));
            i += 1;
            assert(node_views(nodes@) =~= ns.take(i as int));
        }
        assert(ns.take(n as int) =~= ns);
        if n == 0 || nodes[0].depth != 0 {
            assert(n > 0 ==> node_views(nodes@)[0] == nodes@[0].view_of());
            return None;
        }
        let mut k: usize = 1;
        while k < n
            invariant
                n == ns.len(),
                parsed_nodes(grammar, source@) == Some(ns),
                nodes@.len() == n,
                node_views(nodes@) == ns,
                1 <= k <= n,
                forall|j: int| 1 <= j < k ==> 1 <= #[trigger] ns[j].5 <= ns[j - 1].5 + 1,
            decreases n - k,
        {
            assert(ns[k as int] == nodes@[k as int].view_of());
            assert(ns[k - 1] == nodes@[k - 1].view_of());
            if nodes[k].depth < 1 || nodes[k].depth - 1 > nodes[k - 1].depth {
                assert(!(1 <= ns[k as int].5 <= ns[k - 1].5 + 1));
                return None;
            }
            k += 1;
        }
        assert(ns[0] == nodes@[0].view_of());
        Some(SyntaxTree { nodes })
    }

    /// Number of nodes.
    pub fn len(&self) -> (r: usize)
        ensures
            r == self@.len(),
    {
        self.nodes.len()
    }

    /// The node at pre-order index `i`.
    pub fn node(&self, i: usize) -> (r: &SyntaxNode)
        requires
            i < self@.len(),
        ensures
            r.view_of() == self@[i as int],
    {
        &self.nodes[i]
    }

    /// The first child of `i` filling field `f`.
    pub fn field_child(&self, i: usize, f: &str) -> (r: Option<usize>)
        requires
            i < self@.len(),
        ensures
            found(r) == field_child(self@, i as int, i + 1, f@),
            r matches Some(j) ==> i < j < self@.len(),
    {
        let n = self.nodes.len();
        let mut j = i + 1;
        while j < n && self.nodes[j].depth > self.nodes[i].depth
            invariant
                n == self@.len(),
                i < j <= self@.len(),
                field_child(self@, i as int, i + 1, f@) == field_child(self@, i as int, j as int, f@),
            decreases self.nodes.len() - j,
        {
            let nj = &self.nodes[j];
            assert(self@[j as int] == nj.view_of());
            let hit = match &nj.field {
                Some(x) => str_eq(x.as_str(), f),
                None => false,
            };
            if nj.depth == self.nodes[i].depth + 1 && hit {
                return Some(j);
            }
            j += 1;
        }
        proof {
            if j < self@.len() {
                assert(self@[j as int] == self.nodes@[j as int].view_of());
            }
        }
        None
    }

    /// The first child of `i` of kind `k`.
    pub fn kind_child(&self, i: usize, k: &str) -> (r: Option<usize>)
        requires
            i < self@.len(),
        ensures
            found(r) == kind_child(self@, i as int, i + 1, k@),
            r matches Some(j) ==> i < j < self@.len(),
    {
        let n = self.nodes.len();
        let mut j = i + 1;
        while j < n && self.nodes[j].depth > self.nodes[i].depth
            invariant
                n == self@.len(),
                i < j <= self@.len(),
                kind_child(self@, i as int, i + 1, k@) == kind_child(self@, i as int, j as int, k@),
            decreases self.nodes.len() - j,
        {
            let nj = &self.nodes[j];
            assert(self@[j as int] == nj.view_of());
            if nj.depth == self.nodes[i].depth + 1 && str_eq(nj.kind.as_str(), k) {
                return Some(j);
            }
            j += 1;
        }
        proof {
            if j < self@.len() {
                assert(self@[j as int] == self.nodes@[j as int].view_of());
            }
        }
        None
    }

    /// The first named child of `i`.
    pub fn named_child(&self, i: usize) -> (r: Option<usize>)
        requires
            i < self@.len(),
        ensures
            found(r) == named_child(self@, i as int, i + 1),
            r matches Some(j) ==> i < j < self@.len(),
    {
        let n = self.nodes.len();
        let mut j = i + 1;
        while j < n && self.nodes[j].depth > self.nodes[i].depth
            invariant
                n == self@.len(),
                i < j <= self@.len(),
                named_child(self@, i as int, i + 1) == named_child(self@, i as int, j as int),
            decreases self.nodes.len() - j,
        {
            let nj = &self.nodes[j];
            assert(self@[j as int] == nj.view_of());
            if nj.depth == self.nodes[i].depth + 1 && nj.named {
                return Some(j);
            }
            j += 1;
        }
        proof {
            if j < self@.len() {
                assert(self@[j as int] == self.nodes@[j as int].view_of());
            }
        }
        None
    }

    /// The text of node `i` in `source`; empty when its span is not a
    /// valid slice of `source`.
    pub fn text(&self, i: usize, source: &str) -> (r: String)
        requires
            i < self@.len(),
        ensures
            utf8(r@) == node_text(self@[i as int], utf8(source@)),
            r@ == node_str(self@[i as int], utf8(source@)),
    {
        proof {
            broadcast use vstd::utf8::encode_utf8_decode_utf8;
        }
        let n = &self.nodes[i];
        assert(self@[i as int] == n.view_of());
        match span_text(source, n.start, n.end) {
            Some(t) => t,
            None => String::new(),
        }
    }
}

} // verus!

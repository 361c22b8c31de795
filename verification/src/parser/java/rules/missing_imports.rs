//! Java rule: add the missing `import` of a project class used by its
//! simple name.
//!
//! After a move into a new package, unqualified references to former
//! same-package siblings stop resolving. The rule adds an import only when
//! the class index proves a single candidate; ambiguity goes out as a
//! manual finding with the candidates listed. Dotted chains (`a.b.Foo`)
//! never count, files with on-demand imports never auto-fix, same-package
//! siblings are skipped, and names the file declares or imports are
//! invisible to the rule. Comments and strings produce no syntax nodes, so
//! a mention there never triggers an insertion.

use vstd::prelude::*;

use crate::engine::index::Index;
use crate::engine::Edit;
use crate::order::texts;
use crate::parser::java::{simple_name, simple_of, JavaClassIndex};
use crate::parser::syntax::{field_child, kind_child, node_str, parsed_nodes, tree_wf, Grammar, NodeView, SyntaxTree};
use crate::parser::ts::{last_at_depth, lemma_last_at_depth};
use crate::parser::words::{line_end, line_end_of};
use crate::parser::{fix_view, fix_views, Fix, FixCandidate, FixView, Severity};
use crate::path::join;
use crate::text::{chars_of, lemma_str_bytes, push_str, str_eq, string_of, utf8};

verus! {

/// Rule id accepted by `jmove fix --rule`.
pub const RULE: &'static str = "java/missing-import";

/// Whether `c` has the Unicode `Uppercase` property.
pub uninterp spec fn uppercase(c: char) -> bool;

/// `char::is_uppercase`: the Unicode `Uppercase` property; among ASCII
/// characters it holds exactly of `A`..=`Z`.
#[verifier::external_body]
fn is_uppercase(c: char) -> (r: bool)
    ensures
        r == uppercase(c),
        (c as u32) < 128 ==> (r <==> ('A' <= c && c <= 'Z')),
{
    c.is_uppercase()
}

/// What a file resolves without a new import, plus the insertion anchors:
/// declared names, imported simple names, an on-demand import seen, the
/// end of the last import line, the end of the package line, the package
/// name.
pub type ScopeView = (Set<Seq<char>>, Set<Seq<char>>, bool, int, int, Option<Seq<char>>);

/// Node kinds that declare a type name (or a type parameter).
pub open spec fn declares_type(k: Seq<char>) -> bool {
    k == "class_declaration"@ || k == "interface_declaration"@ || k == "enum_declaration"@
        || k == "record_declaration"@ || k == "annotation_type_declaration"@ || k == "type_parameter"@
}

/// The dotted path of an import or package declaration: its scoped
/// identifier, else its identifier.
pub open spec fn path_child(ns: Seq<NodeView>, i: int) -> Option<int> {
    match kind_child(ns, i, i + 1, "scoped_identifier"@) {
        Some(x) => Some(x),
        None => kind_child(ns, i, i + 1, "identifier"@),
    }
}

/// The name node of a declaration: its `name` field, else its first
/// `type_identifier` (a type parameter keeps its name unnamed).
pub open spec fn name_child(ns: Seq<NodeView>, i: int) -> Option<int> {
    match field_child(ns, i, i + 1, "name"@) {
        Some(x) => Some(x),
        None => kind_child(ns, i, i + 1, "type_identifier"@),
    }
}

/// The scope after visiting node `i`.
pub open spec fn scope_step(ns: Seq<NodeView>, src: Seq<u8>, sc: ScopeView, i: int) -> ScopeView {
    let k = ns[i].0;
    if k == "import_declaration"@ {
        let li = line_end(src, ns[i].4);
        if kind_child(ns, i, i + 1, "asterisk"@) is Some {
            (sc.0, sc.1, true, li, sc.4, sc.5)
        } else {
            match path_child(ns, i) {
                Some(x) => (sc.0, sc.1.insert(simple_name(node_str(ns[x], src))), sc.2, li, sc.4, sc.5),
                None => (sc.0, sc.1, sc.2, li, sc.4, sc.5),
            }
        }
    } else if k == "package_declaration"@ {
        let name = match path_child(ns, i) {
            Some(x) => Some(node_str(ns[x], src)),
            None => None,
        };
        (sc.0, sc.1, sc.2, sc.3, line_end(src, ns[i].4), name)
    } else if declares_type(k) {
        match name_child(ns, i) {
            Some(x) => (sc.0.insert(node_str(ns[x], src)), sc.1, sc.2, sc.3, sc.4, sc.5),
            None => sc,
        }
    } else {
        sc
    }
}

/// The scope gathered from the first `n` nodes (every node is visited).
pub open spec fn scope_upto(ns: Seq<NodeView>, src: Seq<u8>, n: int) -> ScopeView
    decreases n,
{
    if n <= 0 {
        (Set::empty(), Set::empty(), false, 0, 0, None)
    } else {
        scope_step(ns, src, scope_upto(ns, src, n - 1), n - 1)
    }
}

/// Dotted chains, package and import statements resolve on their own: the
/// reference walk never descends into them.
pub open spec fn opaque_kind(k: Seq<char>) -> bool {
    k == "import_declaration"@ || k == "package_declaration"@ || k == "scoped_identifier"@
        || k == "scoped_type_identifier"@
}

/// The parent of node `i` (the last node before it one level up).
pub open spec fn parent(ns: Seq<NodeView>, i: int) -> int {
    last_at_depth(ns, i - 1, ns[i].5 - 1)
}

/// The reference walk reaches node `i`: no ancestor is opaque.
pub open spec fn walked(ns: Seq<NodeView>, i: int) -> bool
    decreases i,
{
    if i <= 0 {
        i == 0
    } else {
        let p = parent(ns, i);
        proof {
            lemma_last_at_depth(ns, i - 1, ns[i].5 - 1);
        }
        0 <= p && walked(ns, p) && !opaque_kind(ns[p].0)
    }
}

/// Parents whose `name` field is a member or declarator, not a type use.
pub open spec fn member_kind(k: Seq<char>) -> bool {
    k == "method_declaration"@ || k == "constructor_declaration"@ || k == "variable_declarator"@
        || k == "method_invocation"@ || k == "field_access"@ || k == "enum_constant"@
}

/// Node `i` is the `name` of a member-like parent.
pub open spec fn member_name(ns: Seq<NodeView>, i: int) -> bool {
    let p = parent(ns, i);
    i > 0 && 0 <= p && member_kind(ns[p].0) && match field_child(ns, p, p + 1, "name"@) {
        Some(q) => ns[q].3 == ns[i].3 && ns[q].4 == ns[i].4,
        None => false,
    }
}

/// A reference site: a reached bare identifier that names no member.
pub open spec fn ref_site(ns: Seq<NodeView>, i: int) -> bool {
    walked(ns, i) && (ns[i].0 == "identifier"@ || ns[i].0 == "type_identifier"@) && !member_name(ns, i)
}

/// A name starting with an uppercase character.
pub open spec fn capitalized(name: Seq<char>) -> bool {
    name.len() > 0 && uppercase(name[0])
}

/// A reference as the contracts see it: name, span start and end.
pub type RefView = (Seq<char>, int, int);

/// `name` already has an entry in `refs`.
pub open spec fn seen(refs: Seq<RefView>, name: Seq<char>) -> bool {
    exists|k: int| 0 <= k < refs.len() && (#[trigger] refs[k]).0 == name
}

/// The first occurrence of each new capitalized name the scope does not
/// resolve, among the first `n` nodes.
pub open spec fn refs_upto(ns: Seq<NodeView>, src: Seq<u8>, sc: ScopeView, n: int) -> Seq<RefView>
    decreases n,
{
    if n <= 0 {
        Seq::empty()
    } else {
        let prev = refs_upto(ns, src, sc, n - 1);
        let i = n - 1;
        let name = node_str(ns[i], src);
        if ref_site(ns, i) && capitalized(name) && !sc.0.contains(name) && !sc.1.contains(name) && !seen(prev, name) {
            prev.push((name, ns[i].3, ns[i].4))
        } else {
            prev
        }
    }
}

/// Why a finding with candidates is manual.
pub open spec fn manual_reason(wildcard: bool) -> Seq<char> {
    if wildcard {
        "on-demand imports may already resolve it"@
    } else {
        "the index holds several classes with this name"@
    }
}

/// The finding for reference `r` given its candidates `cands`: nothing for
/// jdk/third-party names and same-package siblings; an inserted import at
/// `anchor` for a unique candidate without on-demand imports; else a
/// manual report listing the candidates.
pub open spec fn candidate(r: RefView, anchor: int, sc: ScopeView, cands: Seq<Seq<char>>) -> Option<FixView> {
    let name = r.0;
    if cands.len() == 0 {
        None
    } else if sc.5 matches Some(pkg) && cands.contains(pkg + "."@ + name) {
        None
    } else if cands.len() == 1 && !sc.2 {
        let fqn = cands[0];
        Some((
            RULE@,
            "missing import '"@ + fqn + "' for type '"@ + name + "'"@,
            Severity::Error,
            true,
            r.1,
            r.2,
            seq![(anchor, anchor, Seq::<char>::empty(), "import "@ + fqn + ";\n"@)],
            Seq::<Seq<char>>::empty(),
        ))
    } else {
        Some((
            RULE@,
            "type '"@ + name + "' needs an import: "@ + manual_reason(sc.2) + " ("@ + join(cands, ", "@) + ")"@,
            Severity::Error,
            false,
            r.1,
            r.2,
            Seq::empty(),
            cands,
        ))
    }
}

/// A class of the file's own package needs no import: whenever the index
/// lists `<package>.<name>` among the classes named like reference
/// `refs[k]`, the rule reports nothing for that reference (the findings do
/// not grow past it), however many other packages also hold a class of
/// that name.
pub proof fn law_same_package_class_needs_no_import(
    refs: Seq<RefView>,
    k: int,
    anchor: int,
    sc: ScopeView,
    classes: JavaClassIndex,
    pkg: Seq<char>,
)
    requires
        0 <= k < refs.len(),
        sc.5 == Some(pkg),
        classes.candidates_spec(refs[k].0).contains(pkg + "."@ + refs[k].0),
    ensures
        candidate(refs[k], anchor, sc, classes.candidates_spec(refs[k].0)) is None,
        findings(refs, anchor, sc, classes, k + 1) == findings(refs, anchor, sc, classes, k),
{
    let cands = classes.candidates_spec(refs[k].0);
    assert(cands.len() > 0);
}

/// The findings for the first `k` references.
pub open spec fn findings(refs: Seq<RefView>, anchor: int, sc: ScopeView, classes: JavaClassIndex, k: int) -> Seq<FixView>
    decreases k,
{
    if k <= 0 {
        Seq::empty()
    } else {
        let prev = findings(refs, anchor, sc, classes, k - 1);
        match candidate(refs[k - 1], anchor, sc, classes.candidates_spec(refs[k - 1].0)) {
            Some(c) => prev.push(c),
            None => prev,
        }
    }
}

/// The insertion anchor: after the last import, else after the package
/// line, else the head of the file.
pub open spec fn anchor_of(sc: ScopeView) -> int {
    if sc.3 >= sc.4 {
        sc.3
    } else {
        sc.4
    }
}

/// What the rule proposes for `source` against the class index.
pub open spec fn fixes_spec(source: Seq<char>, classes: JavaClassIndex) -> Seq<FixView> {
    match parsed_nodes(Grammar::Java, source) {
        Some(ns) => if tree_wf(ns) {
            let src = utf8(source);
            let sc = scope_upto(ns, src, ns.len() as int);
            let refs = refs_upto(ns, src, sc, ns.len() as int);
            findings(refs, anchor_of(sc), sc, classes, refs.len() as int)
        } else {
            Seq::empty()
        },
        None => Seq::empty(),
    }
}

/// The exec scope: declared names, imported names, wildcard, anchors,
/// package name.
struct Scope {
    declared: Vec<String>,
    imported: Vec<String>,
    wildcard: bool,
    last_import: usize,
    package_line: usize,
    package_name: Option<String>,
}

impl Scope {
    spec fn view_of(&self) -> ScopeView {
        (
            texts(self.declared@).to_set(),
            texts(self.imported@).to_set(),
            self.wildcard,
            self.last_import as int,
            self.package_line as int,
            match self.package_name {
                Some(p) => Some(p@),
                None => None,
            },
        )
    }
}

// Whether `name` is among `names`.
fn member_of(names: &Vec<String>, name: &str) -> (r: bool)
    ensures
        r == texts(names@).to_set().contains(name@),
{
    let mut k: usize = 0;
    while k < names.len()
        invariant
            k <= names@.len(),
            forall|j: int| 0 <= j < k ==> names@[j]@ != name@,
        decreases names.len() - k,
    {
        if str_eq(names[k].as_str(), name) {
            assert(texts(names@)[k as int] == name@);
            return true;
        }
        k += 1;
    }
    assert(!texts(names@).contains(name@)) by {
        if texts(names@).contains(name@) {
            let j = choose|j: int| 0 <= j < texts(names@).len() && texts(names@)[j] == name@;
            assert(names@[j]@ == name@);
        }
    }
    false
}

// `v` with `x` added (as a set).
proof fn lemma_push_set(v: Seq<String>, x: String)
    ensures
        texts(v.push(x)).to_set() == texts(v).to_set().insert(x@),
{
    assert(texts(v.push(x)) =~= texts(v).push(x@));
    texts(v).lemma_push_to_set_commute(x@);
}

// The path child, as in [`path_child`].
fn path_child_at(tree: &SyntaxTree, i: usize) -> (r: Option<usize>)
    requires
        i < tree@.len(),
    ensures
        crate::parser::syntax::found(r) == path_child(tree@, i as int),
        r matches Some(x) ==> x < tree@.len(),
{
    match tree.kind_child(i, "scoped_identifier") {
        Some(x) => Some(x),
        None => tree.kind_child(i, "identifier"),
    }
}

// One step of the scope pass.
fn scope_visit(tree: &SyntaxTree, source: &str, sc: &mut Scope, i: usize)
    requires
        i < tree@.len(),
    ensures
        final(sc).view_of() == scope_step(tree@, utf8(source@), old(sc).view_of(), i as int),
{
    let ghost ns = tree@;
    let ghost src = utf8(source@);
    let bytes = source.as_bytes();
    proof {
        lemma_str_bytes(source);
    }
    let node = tree.node(i);
    let k = node.kind.as_str();
    if str_eq(k, "import_declaration") {
        let li = line_end_of(bytes, node.end);
        if tree.kind_child(i, "asterisk").is_some() {
            sc.wildcard = true;
        } else {
            match path_child_at(tree, i) {
                Some(x) => {
                    let t = tree.text(x, source);
                    let ghost before = sc.imported@;
                    sc.imported.push(simple_of(t.as_str()));
                    proof {
                        lemma_push_set(before, sc.imported@.last());
                    }
                },
                None => {},
            }
        }
        sc.last_import = li;
    } else if str_eq(k, "package_declaration") {
        sc.package_line = line_end_of(bytes, node.end);
        sc.package_name = match path_child_at(tree, i) {
            Some(x) => Some(tree.text(x, source)),
            None => None,
        };
    } else if str_eq(k, "class_declaration") || str_eq(k, "interface_declaration") || str_eq(k, "enum_declaration")
        || str_eq(k, "record_declaration") || str_eq(k, "annotation_type_declaration") || str_eq(k, "type_parameter") {
        let name = match tree.field_child(i, "name") {
            Some(x) => Some(x),
            None => tree.kind_child(i, "type_identifier"),
        };
        match name {
            Some(x) => {
                let ghost before = sc.declared@;
                sc.declared.push(tree.text(x, source));
                proof {
                    lemma_push_set(before, sc.declared@.last());
                }
            },
            None => {},
        }
    }
}

// The scope pass over every node.
fn gather_scope(tree: &SyntaxTree, source: &str) -> (r: Scope)
    ensures
        r.view_of() == scope_upto(tree@, utf8(source@), tree@.len() as int),
{
    let mut sc = Scope {
        declared: Vec::new(),
        imported: Vec::new(),
        wildcard: false,
        last_import: 0,
        package_line: 0,
        package_name: None,
    };
    assert(texts(sc.declared@).to_set() =~= Set::<Seq<char>>::empty());
    assert(texts(sc.imported@).to_set() =~= Set::<Seq<char>>::empty());
    let n = tree.len();
    let mut i: usize = 0;
    while i < n
        invariant
            n == tree@.len(),
            i <= n,
            sc.view_of() == scope_upto(tree@, utf8(source@), i as int),
        decreases n - i,
    {
        scope_visit(tree, source, &mut sc, i);
        i += 1;
    }
    sc
}

/// `last[d]` is the last node at depth `d` up to index `last_i`, for every
/// depth up to that node's.
pub open spec fn lasts_ok(ns: Seq<NodeView>, last: Seq<usize>, last_i: int) -> bool {
    &&& last_i < 0 ==> last.len() == 0
    &&& last_i >= 0 ==> last.len() > ns[last_i].5
    &&& last.len() <= last_i + 1
    &&& forall|d: int| 0 <= d < last.len() ==> #[trigger] last_ok(ns, last, last_i, d)
}

/// `last[d]` is the last node at depth `d` up to index `last_i`.
pub open spec fn last_ok(ns: Seq<NodeView>, last: Seq<usize>, last_i: int, d: int) -> bool {
    last[d] as int == last_at_depth(ns, last_i, d) && last_at_depth(ns, last_i, d) >= 0
}

// Step the reference walk over node `i`: its parent (none for the root),
// with `last` moved on.
fn step_parent(tree: &SyntaxTree, last: &mut Vec<usize>, i: usize) -> (p: Option<usize>)
    requires
        tree_wf(tree@),
        i < tree@.len(),
        lasts_ok(tree@, old(last)@, i - 1),
    ensures
        lasts_ok(tree@, final(last)@, i as int),
        i == 0 ==> p is None,
        i > 0 ==> (p matches Some(q) && q as int == parent(tree@, i as int) && q < i),
{
    let ghost ns = tree@;
    let d = tree.node(i).depth;
    let p: Option<usize>;
    if i == 0 {
        p = None;
    } else {
        assert(1 <= ns[i as int].5 <= ns[i - 1].5 + 1);
        proof {
            lemma_last_at_depth(ns, i - 1, d - 1);
        }
        assert(last_ok(ns, last@, i - 1, d - 1));
        p = Some(last[d - 1]);
    }
    let ghost old_last = last@;
    if d == last.len() {
        last.push(i);
    } else {
        last.set(d, i);
    }
    assert forall|e: int| 0 <= e < last@.len() implies #[trigger] last_ok(ns, last@, i as int, e) by {
        if e != d {
            assert(last@[e] == old_last[e]);
            assert(last_at_depth(ns, i as int, e) == last_at_depth(ns, i - 1, e));
            assert(last_ok(ns, old_last, i - 1, e));
        } else {
            assert(last_at_depth(ns, i as int, e) == i);
        }
    }
    p
}

// Whether node `i` with parent `p` is the `name` of a member-like parent.
fn member_name_at(tree: &SyntaxTree, i: usize, p: Option<usize>) -> (r: bool)
    requires
        i < tree@.len(),
        i == 0 ==> p is None,
        i > 0 ==> (p matches Some(q) && q as int == parent(tree@, i as int) && q < i),
    ensures
        r == member_name(tree@, i as int),
{
    let q = match p {
        Some(q) => q,
        None => return false,
    };
    let k = tree.node(q).kind.as_str();
    if !(str_eq(k, "method_declaration") || str_eq(k, "constructor_declaration") || str_eq(k, "variable_declarator")
        || str_eq(k, "method_invocation") || str_eq(k, "field_access") || str_eq(k, "enum_constant")) {
        return false;
    }
    match tree.field_child(q, "name") {
        Some(x) => {
            let a = tree.node(x);
            let b = tree.node(i);
            a.start == b.start && a.end == b.end
        },
        None => false,
    }
}

// Whether `name` already has an entry.
fn seen_at(refs: &Vec<(String, usize, usize)>, name: &str) -> (r: bool)
    ensures
        r == seen(ref_views(refs@), name@),
{
    let mut k: usize = 0;
    while k < refs.len()
        invariant
            k <= refs@.len(),
            forall|j: int| 0 <= j < k ==> refs@[j].0@ != name@,
        decreases refs.len() - k,
    {
        if str_eq(refs[k].0.as_str(), name) {
            assert(ref_views(refs@)[k as int].0 == name@);
            return true;
        }
        k += 1;
    }
    assert(!seen(ref_views(refs@), name@)) by {
        if seen(ref_views(refs@), name@) {
            let j = choose|j: int| 0 <= j < ref_views(refs@).len() && (#[trigger] ref_views(refs@)[j]).0 == name@;
            assert(refs@[j].0@ == name@);
        }
    }
    false
}

/// The views of exec references.
pub open spec fn ref_views(s: Seq<(String, usize, usize)>) -> Seq<RefView> {
    s.map_values(|r: (String, usize, usize)| (r.0@, r.1 as int, r.2 as int))
}

// Whether a name starts with an uppercase character.
fn starts_upper(name: &str) -> (r: bool)
    ensures
        r == capitalized(name@),
{
    let cs = chars_of(name);
    if cs.len() == 0 {
        return false;
    }
    is_uppercase(cs[0])
}

// The reference pass.
fn gather_refs(tree: &SyntaxTree, source: &str, sc: &Scope) -> (r: Vec<(String, usize, usize)>)
    ensures
        ref_views(r@) == refs_upto(tree@, utf8(source@), sc.view_of(), tree@.len() as int),
{
    let ghost ns = tree@;
    let ghost src = utf8(source@);
    tree.shape();
    let n = tree.len();
    let mut last: Vec<usize> = Vec::new();
    let mut wk: Vec<bool> = Vec::new();
    let mut out: Vec<(String, usize, usize)> = Vec::new();
    let mut i: usize = 0;
    while i < n
        invariant
            ns == tree@,
            src == utf8(source@),
            tree_wf(ns),
            n == ns.len(),
            i <= n,
            lasts_ok(ns, last@, i - 1),
            wk@.len() == i,
            forall|j: int| 0 <= j < i ==> #[trigger] wk@[j] == walked(ns, j),
            ref_views(out@) == refs_upto(ns, src, sc.view_of(), i as int),
        decreases n - i,
    {
        let p = step_parent(tree, &mut last, i);
        let here = match p {
            None => true,
            Some(q) => {
                let qk = tree.node(q).kind.as_str();
                let opaque = str_eq(qk, "import_declaration") || str_eq(qk, "package_declaration")
                    || str_eq(qk, "scoped_identifier") || str_eq(qk, "scoped_type_identifier");
                wk[q] && !opaque
            },
        };
        proof {
            if i > 0 {
                lemma_last_at_depth(ns, i - 1, ns[i as int].5 - 1);
            }
        }
        assert(here == walked(ns, i as int));
        wk.push(here);
        let k = tree.node(i).kind.as_str();
        let is_id = str_eq(k, "identifier") || str_eq(k, "type_identifier");
        if here && is_id && !member_name_at(tree, i, p) {
            let name = tree.text(i, source);
            if starts_upper(name.as_str()) && !member_of(&sc.declared, name.as_str())
                && !member_of(&sc.imported, name.as_str()) && !seen_at(&out, name.as_str()) {
                let node = tree.node(i);
                let ghost before = out@;
                out.push((name, node.start, node.end));
                assert(ref_views(out@) =~= ref_views(before).push((node_str(ns[i as int], src), ns[i as int].3, ns[i as int].4)));
            }
        }
        i += 1;
    }
    out
}

// `a + b` as text.
fn cat(a: &str, b: &str) -> (r: String)
    ensures
        r@ == a@ + b@,
{
    let mut r = String::from_str(a);
    push_str(&mut r, b);
    r
}

// Whether `fqn` is among `cands`.
fn listed(cands: &Vec<String>, fqn: &str) -> (r: bool)
    ensures
        r == texts(cands@).contains(fqn@),
{
    let r = member_of(cands, fqn);
    proof {
        assert(texts(cands@).to_set().contains(fqn@) == texts(cands@).contains(fqn@));
    }
    r
}

// The names joined by `, `.
fn join_list(names: &Vec<String>) -> (r: String)
    ensures
        r@ == join(texts(names@), ", "@),
{
    let mut parts: Vec<Vec<char>> = Vec::new();
    let mut i: usize = 0;
    while i < names.len()
        invariant
            i <= names@.len(),
            crate::path::views(parts@) == texts(names@).take(i as int),
        decreases names.len() - i,
    {
        let ghost before = parts@;
        parts.push(chars_of(names[i].as_str()));
        assert(crate::path::views(parts@) =~= crate::path::views(before).push(names@[i as int]@));
        assert(texts(names@).take(i + 1) =~= texts(names@).take(i as int).push(names@[i as int]@));
        i += 1;
    }
    assert(texts(names@).take(names@.len() as int) =~= texts(names@));
    let sep = chars_of(", ");
    string_of(crate::path::join_chars(parts.as_slice(), sep.as_slice()).as_slice())
}

// The finding for one reference, as in [`candidate`].
fn finding(name: &str, start: usize, end: usize, anchor: usize, sc: &Scope, classes: &JavaClassIndex) -> (r: Option<FixCandidate>)
    ensures
        match r {
            Some(c) => candidate((name@, start as int, end as int), anchor as int, sc.view_of(), classes.candidates_spec(name@)) == Some(fix_view(c)),
            None => candidate((name@, start as int, end as int), anchor as int, sc.view_of(), classes.candidates_spec(name@)) is None,
        },
{
    let cands = classes.candidates(name);
    if cands.len() == 0 {
        return None;
    }
    match &sc.package_name {
        Some(pkg) => {
            let dotted = cat(pkg.as_str(), ".");
            let fqn = cat(dotted.as_str(), name);
            if listed(&cands, fqn.as_str()) {
                return None;
            }
        },
        None => {},
    }
    if cands.len() == 1 && !sc.wildcard {
        let fqn = cands[0].as_str();
        let message = cat(cat(cat(cat("missing import '", fqn).as_str(), "' for type '").as_str(), name).as_str(), "'");
        let new_text = cat(cat("import ", fqn).as_str(), ";\n");
        let c = FixCandidate {
            rule: RULE,
            message,
            severity: Severity::Error,
            auto_fixable: true,
            span: start..end,
            edits: vec![Edit { span: anchor..anchor, old_text: String::new(), new_text }],
            candidates: Vec::new(),
        };
        proof {
            assert(crate::engine::apply::fsops::edit_views(c.edits@) =~= seq![(anchor as int, anchor as int, Seq::<char>::empty(), "import "@ + cands@[0]@ + ";\n"@)]);
            assert(texts(c.candidates@) =~= Seq::<Seq<char>>::empty());
        }
        return Some(c);
    }
    let why = if sc.wildcard {
        "on-demand imports may already resolve it"
    } else {
        "the index holds several classes with this name"
    };
    let head = cat(cat(cat("type '", name).as_str(), "' needs an import: ").as_str(), why);
    let message = cat(cat(cat(head.as_str(), " (").as_str(), join_list(&cands).as_str()).as_str(), ")");
    let ghost cv = texts(cands@);
    let c = FixCandidate {
        rule: RULE,
        message,
        severity: Severity::Error,
        auto_fixable: false,
        span: start..end,
        edits: Vec::new(),
        candidates: cands,
    };
    proof {
        assert(crate::engine::apply::fsops::edit_views(c.edits@) =~= Seq::<crate::engine::apply::fsops::EditView>::empty());
    }
    Some(c)
}

/// The rule's findings over a parsed file against the class index.
pub fn tree_fixes(tree: &SyntaxTree, source: &str, classes: &JavaClassIndex) -> (r: Vec<FixCandidate>)
    ensures
        fix_views(r@) == ({
            let src = utf8(source@);
            let sc = scope_upto(tree@, src, tree@.len() as int);
            let refs = refs_upto(tree@, src, sc, tree@.len() as int);
            findings(refs, anchor_of(sc), sc, *classes, refs.len() as int)
        }),
{
    let sc = gather_scope(tree, source);
    let refs = gather_refs(tree, source, &sc);
    let ghost rv = ref_views(refs@);
    let anchor = if sc.last_import >= sc.package_line {
        sc.last_import
    } else {
        sc.package_line
    };
    let mut out: Vec<FixCandidate> = Vec::new();
    let mut k: usize = 0;
    while k < refs.len()
        invariant
            rv == ref_views(refs@),
            k <= refs@.len(),
            anchor as int == anchor_of(sc.view_of()),
            fix_views(out@) == findings(rv, anchor as int, sc.view_of(), *classes, k as int),
        decreases refs.len() - k,
    {
        let r = &refs[k];
        assert(rv[k as int] == (r.0@, r.1 as int, r.2 as int));
        match finding(r.0.as_str(), r.1, r.2, anchor, &sc, classes) {
            Some(c) => {
                let ghost before = out@;
                out.push(c);
                assert(fix_views(out@) =~= fix_views(before).push(fix_view(c)));
            },
            None => {},
        }
        k += 1;
    }
    out
}

/// Missing-import adder for Java sources.
pub struct JavaMissingImports;

impl JavaMissingImports {
    /// Create the rule.
    pub fn new() -> (r: Self) {
        JavaMissingImports
    }
}

impl Default for JavaMissingImports {
    fn default() -> (r: Self) {
        JavaMissingImports
    }
}

impl Fix for JavaMissingImports {
    open spec fn rule_spec(&self) -> Seq<char> {
        RULE@
    }

    open spec fn fixes_spec(&self, path: Seq<char>, source: Seq<char>, index: Index) -> Seq<FixView> {
        fixes_spec(source, index.java_classes)
    }

    fn rule(&self) -> (r: &'static str) {
        RULE
    }

    fn fixes(&self, path: &str, source: &str, index: &Index) -> (r: Vec<FixCandidate>) {
        match SyntaxTree::parse(Grammar::Java, source) {
            Some(tree) => tree_fixes(&tree, source, &index.java_classes),
            None => {
                let r: Vec<FixCandidate> = Vec::new();
                assert(fix_views(r@) =~= Seq::<FixView>::empty());
                r
            },
        }
    }
}

} // verus!

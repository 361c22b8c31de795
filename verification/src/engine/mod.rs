//! Core engine: project indexing, dependency graph, move/fix planning and
//! the byte-level edit engine.
//!
//! Path convention used across the crate: every path produced by the
//! engine is **project-root-relative, normalized** (no `.`/`..` segments)
//! and `/`-separated. [`normalize_rel_path`] canonicalizes paths coming
//! from users or from walking the file system.

use vstd::prelude::*;

use crate::path::{
    comp_text, comp_views, comps, comps_prefix, component_clone, component_text, components,
    components_prefix, components_slice, join_chars, join_path, normalize_components, normalized,
    path_of, path_text, push_path, rel_text, slash, views, Comp, Component,
};
use crate::text::{chars_of, lemma_str_bytes, push_str, string_of, utf8};

verus! {

/// Crate-wide error type surfaced to the CLI layer.
pub enum JmoveError {
    /// Filesystem or IO failure (the message of the underlying error).
    Io(String),
    /// The user supplied a path that is invalid for the requested operation.
    InvalidArgument(String),
    /// Project index is stale (a file vanished or was moved externally).
    StaleIndex(String),
    /// The planned move cannot be applied safely.
    PlanRejected(String),
    /// A git operation (`git mv`) failed.
    Git(String),
}

/// Result alias used throughout the crate.
pub type JmoveResult<T> = Result<T, JmoveError>;

/// The label each error kind is reported under.
pub open spec fn error_label(e: JmoveError) -> Seq<char> {
    match e {
        JmoveError::Io(_) => "io error: "@,
        JmoveError::InvalidArgument(_) => "invalid argument: "@,
        JmoveError::StaleIndex(_) => "index is stale: "@,
        JmoveError::PlanRejected(_) => "plan rejected: "@,
        JmoveError::Git(_) => "git error: "@,
    }
}

/// The detail message an error carries.
pub open spec fn error_detail(e: JmoveError) -> Seq<char> {
    match e {
        JmoveError::Io(m) => m@,
        JmoveError::InvalidArgument(m) => m@,
        JmoveError::StaleIndex(m) => m@,
        JmoveError::PlanRejected(m) => m@,
        JmoveError::Git(m) => m@,
    }
}

impl JmoveError {
    /// Human-readable rendering: the kind's label followed by the detail.
    pub fn to_string(&self) -> (r: String)
        ensures
            r@ == error_label(*self) + error_detail(*self),
    {
        let (label, detail) = match self {
            JmoveError::Io(m) => ("io error: ", m),
            JmoveError::InvalidArgument(m) => ("invalid argument: ", m),
            JmoveError::StaleIndex(m) => ("index is stale: ", m),
            JmoveError::PlanRejected(m) => ("plan rejected: ", m),
            JmoveError::Git(m) => ("git error: ", m),
        };
        let mut r = String::from_str(label);
        push_str(&mut r, detail.as_str());
        r
    }
}

/// One in-file byte-span edit: replaces the contents of `span` with
/// `new_text`, after verifying the bytes there still equal `old_text`.
///
/// Engine semantics: a non-empty span with its current content in
/// `old_text` is a replacement; an empty span with empty `old_text` is an
/// insertion at `span.start`; an empty `new_text` is a deletion. The
/// `old_text` check is the staleness guard.
pub struct Edit {
    /// Byte range in the original file contents.
    pub span: std::ops::Range<usize>,
    /// Exact bytes the span must currently hold (empty for insertions).
    pub old_text: String,
    /// Replacement bytes (empty for deletions).
    pub new_text: String,
}

impl Clone for Edit {
    fn clone(&self) -> (r: Self)
        ensures
            r.span == self.span,
            r.old_text@ == self.old_text@,
            r.new_text@ == self.new_text@,
    {
        Edit {
            span: self.span.start..self.span.end,
            old_text: self.old_text.clone(),
            new_text: self.new_text.clone(),
        }
    }
}

/// Normalize a project-relative path: strip `.` segments, collapse `..`
/// where possible and reject paths that escape the project root.
/// `None` if the result would be empty, absolute or above the root.
pub fn normalize_rel_path(path: &str) -> (r: Option<String>)
    ensures
        match r {
            Some(s) => normalized(path@) == Some(s@),
            None => normalized(path@) is None,
        },
{
    let cs = components(path);
    match normalize_components(cs.as_slice()) {
        None => None,
        Some(st) => {
            if st.len() == 0 {
                None
            } else {
                let sep = chars_of("/");
                proof {
                    reveal_strlit("/");
                }
                assert(sep@ =~= slash());
                let joined = join_chars(st.as_slice(), sep.as_slice());
                Some(string_of(joined.as_slice()))
            }
        },
    }
}

/// Format a project-relative path for anything that crosses the CLI
/// boundary: the components joined by `/`.
pub fn rel_str(path: &str) -> (r: String)
    ensures
        r@ == rel_text(path@),
{
    let cs = components(path);
    let mut parts: Vec<Vec<char>> = Vec::new();
    let mut i: usize = 0;
    while i < cs.len()
        invariant
            i <= cs@.len(),
            views(parts@) == comp_views(cs@).take(i as int).map_values(|c: Comp| comp_text(c)),
        decreases cs.len() - i,
    {
        let ghost prev = views(parts@);
        parts.push(component_text(&cs[i]));
        assert(views(parts@) =~= prev.push(comp_text(comp_views(cs@)[i as int])));
        i += 1;
        assert(views(parts@) =~= comp_views(cs@).take(i as int).map_values(|c: Comp| comp_text(c)));
    }
    assert(comp_views(cs@).take(cs@.len() as int) =~= comp_views(cs@));
    let sep = chars_of("/");
    proof {
        reveal_strlit("/");
    }
    assert(sep@ =~= slash());
    let joined = join_chars(parts.as_slice(), sep.as_slice());
    string_of(joined.as_slice())
}

/// Number of `\n` bytes in `s`.
pub open spec fn count_newlines(s: Seq<u8>) -> nat
    decreases s.len(),
{
    if s.len() == 0 {
        0
    } else {
        count_newlines(s.drop_last()) + if s.last() == 10u8 {
            1nat
        } else {
            0nat
        }
    }
}

/// 1-based line of byte offset `byte` in `s` (offsets past the end count
/// as the end).
pub open spec fn line_at(s: Seq<u8>, byte: int) -> nat {
    count_newlines(s.take(if byte < s.len() {
        byte
    } else {
        s.len() as int
    })) + 1
}

pub proof fn lemma_count_newlines_bound(s: Seq<u8>)
    ensures
        count_newlines(s) <= s.len(),
    decreases s.len(),
{
    if s.len() > 0 {
        lemma_count_newlines_bound(s.drop_last());
    }
}

/// 1-based line containing the byte offset `byte` in `source` (a line
/// number beyond `usize::MAX`, which no real text reaches, saturates).
pub fn line_of(source: &str, byte: usize) -> (r: usize)
    ensures
        r == if line_at(utf8(source@), byte as int) <= usize::MAX {
            line_at(utf8(source@), byte as int)
        } else {
            usize::MAX as nat
        },
{
    let bytes = source.as_bytes();
    proof {
        lemma_str_bytes(source);
    }
    let upto = if byte < bytes.len() {
        byte
    } else {
        bytes.len()
    };
    let mut n: usize = 0;
    let mut i: usize = 0;
    while i < upto
        invariant
            upto <= bytes@.len(),
            i <= upto,
            n == count_newlines(bytes@.take(i as int)),
        decreases upto - i,
    {
        proof {
            lemma_count_newlines_bound(bytes@.take(i as int));
        }
        assert(bytes@.take(i + 1).drop_last() =~= bytes@.take(i as int));
        if bytes[i] == 10u8 {
            n = n + 1;
        }
        i += 1;
    }
    proof {
        lemma_count_newlines_bound(bytes@.take(upto as int));
    }
    if n == usize::MAX {
        n
    } else {
        n + 1
    }
}

/// The lexical collapse of a component run: `.` vanishes and `..` drops
/// the previous component (if any).
pub open spec fn collapse_stack(cs: Seq<Comp>) -> Seq<Comp>
    decreases cs.len(),
{
    if cs.len() == 0 {
        Seq::<Comp>::empty()
    } else {
        let st = collapse_stack(cs.drop_last());
        match cs.last() {
            Comp::Cur => st,
            Comp::Parent => if st.len() == 0 {
                st
            } else {
                st.drop_last()
            },
            c => st.push(c),
        }
    }
}

/// What [`rel_from_root`] computes: the project-relative normalized form
/// of `path`, or the message of the `InvalidArgument` error it reports.
pub open spec fn rel_from_root_spec(root: Seq<char>, path: Seq<char>) -> Result<Seq<char>, Seq<char>> {
    let joined = if path.len() > 0 && path[0] == '/' {
        path
    } else {
        join_path(root, path)
    };
    let abs = comps(path_of(collapse_stack(comps(joined))));
    let rc = comps(root);
    if !comps_prefix(rc, abs) {
        Err("path '"@ + path + "' is outside the project root"@)
    } else {
        match normalized(path_of(abs.subrange(rc.len() as int, abs.len() as int))) {
            Some(rel) => Ok(rel),
            None => Err("invalid project path '"@ + path + "'"@),
        }
    }
}

/// Every path a user hands in comes out in the engine's convention:
/// project-relative and normalized (normalizing it again gives it back),
/// and already in the `/`-joined form `rel_str` renders.
pub proof fn law_user_paths_come_out_normalized(root: Seq<char>, path: Seq<char>)
    requires
        rel_from_root_spec(root, path) is Ok,
    ensures
        normalized(rel_from_root_spec(root, path)->Ok_0) == Some(rel_from_root_spec(root, path)->Ok_0),
        rel_text(rel_from_root_spec(root, path)->Ok_0) == rel_from_root_spec(root, path)->Ok_0,
{
    let joined = if path.len() > 0 && path[0] == '/' {
        path
    } else {
        join_path(root, path)
    };
    let abs = comps(path_of(collapse_stack(comps(joined))));
    let rc = comps(root);
    let inner = path_of(abs.subrange(rc.len() as int, abs.len() as int));
    crate::path::law_normalization_is_idempotent(inner);
}

// Lexically normalize a path: drop `.` segments, apply `..` where possible.
fn collapse(path: &str) -> (r: String)
    ensures
        r@ == path_of(collapse_stack(comps(path@))),
{
    let cs = components(path);
    let mut st: Vec<Component> = Vec::new();
    let mut i: usize = 0;
    while i < cs.len()
        invariant
            i <= cs@.len(),
            comp_views(st@) == collapse_stack(comp_views(cs@).take(i as int)),
        decreases cs.len() - i,
    {
        let ghost prev = comp_views(st@);
        assert(comp_views(cs@).take(i + 1).drop_last() =~= comp_views(cs@).take(i as int));
        match &cs[i] {
            Component::CurDir => {},
            Component::ParentDir => {
                if st.len() > 0 {
                    st.pop();
                    assert(comp_views(st@) =~= prev.drop_last());
                }
            },
            c => {
                st.push(component_clone(c));
                assert(comp_views(st@) =~= prev.push(c@));
            },
        }
        i += 1;
    }
    assert(comp_views(cs@).take(cs@.len() as int) =~= comp_views(cs@));
    let t = path_text(st.as_slice());
    string_of(t.as_slice())
}

// `a + b + c` as a new string.
pub fn concat3(a: &str, b: &str, c: &str) -> (r: String)
    ensures
        r@ == a@ + b@ + c@,
{
    let mut r = String::from_str(a);
    push_str(&mut r, b);
    push_str(&mut r, c);
    r
}

/// Convert a user-supplied path to a normalized project-relative path.
/// Relative paths are taken against `root`; absolute ones must live
/// underneath it. Errors are `InvalidArgument` when the path is outside
/// `root` or normalizes to nothing.
pub fn rel_from_root(root: &str, path: &str) -> (r: JmoveResult<String>)
    ensures
        match (r, rel_from_root_spec(root@, path@)) {
            (Ok(s), Ok(t)) => s@ == t,
            (Err(JmoveError::InvalidArgument(m)), Err(t)) => m@ == t,
            _ => false,
        },
{
    let pc = chars_of(path);
    let joined = if pc.len() > 0 && pc[0] == '/' {
        String::from_str(path)
    } else {
        let mut buf = chars_of(root);
        push_path(&mut buf, pc.as_slice());
        string_of(buf.as_slice())
    };
    let abs_text = collapse(joined.as_str());
    let abs = components(abs_text.as_str());
    let rc = components(root);
    if !components_prefix(rc.as_slice(), abs.as_slice()) {
        proof {
            reveal_strlit("path '");
            reveal_strlit("' is outside the project root");
        }
        return Err(JmoveError::InvalidArgument(concat3("path '", path, "' is outside the project root")));
    }
    let rest = components_slice(abs.as_slice(), rc.len(), abs.len());
    let rest_text = path_text(rest.as_slice());
    let rest_str = string_of(rest_text.as_slice());
    match normalize_rel_path(rest_str.as_str()) {
        Some(rel) => Ok(rel),
        None => {
            proof {
                reveal_strlit("invalid project path '");
                reveal_strlit("'");
            }
            Err(JmoveError::InvalidArgument(concat3("invalid project path '", path, "'")))
        },
    }
}

} // verus!
pub mod plan;
pub mod apply;
pub mod fix;
pub mod index;
pub mod refs;

//! Module specifier resolution for TS/JS projects.
//!
//! Given a *relative* specifier and the importing file, find which indexed
//! project file it refers to. Bare / package specifiers (not starting with
//! `.`) are out of project scope and resolve to `None`.

use vstd::prelude::*;

use crate::engine::index::files::has_path;
use crate::engine::index::FileSet;
use crate::engine::normalize_rel_path;
use crate::path::{join_path, normalized, parent, parent_of, push_path};
use crate::text::{chars_of, extend_chars, string_of};

verus! {

/// `base` with `.ext` appended verbatim.
pub open spec fn with_ext_of(base: Seq<char>, ext: Seq<char>) -> Seq<char> {
    base + "."@ + ext
}

/// The candidates tried for a module base, in resolution order: the exact
/// path, each supported extension (`.ts`, `.tsx`, `.js`, `.jsx`, `.mjs`,
/// `.cjs`), the declaration file `.d.ts`, then `index.<ext>` inside it.
pub open spec fn base_candidates(base: Seq<char>) -> Seq<Seq<char>> {
    let idx = join_path(base, "index"@);
    seq![
        base,
        with_ext_of(base, "ts"@),
        with_ext_of(base, "tsx"@),
        with_ext_of(base, "js"@),
        with_ext_of(base, "jsx"@),
        with_ext_of(base, "mjs"@),
        with_ext_of(base, "cjs"@),
        with_ext_of(base, "d.ts"@),
        with_ext_of(idx, "ts"@),
        with_ext_of(idx, "tsx"@),
        with_ext_of(idx, "js"@),
        with_ext_of(idx, "jsx"@),
        with_ext_of(idx, "mjs"@),
        with_ext_of(idx, "cjs"@),
    ]
}

/// The first candidate that names a member of `files` (by components).
pub open spec fn first_member(cands: Seq<Seq<char>>, files: Set<Seq<char>>) -> Option<Seq<char>>
    decreases cands.len(),
{
    if cands.len() == 0 {
        None
    } else if has_path(files, cands[0]) {
        Some(cands[0])
    } else {
        first_member(cands.drop_first(), files)
    }
}

/// What [`resolve_module`] computes.
pub open spec fn resolve_module_spec(importer: Seq<char>, specifier: Seq<char>, files: Set<Seq<char>>) -> Option<Seq<char>> {
    if !(specifier.len() > 0 && specifier[0] == '.') {
        None
    } else {
        match parent_of(importer) {
            None => None,
            Some(dir) => match normalized(join_path(dir, specifier)) {
                None => None,
                Some(base) => first_member(base_candidates(base), files),
            },
        }
    }
}

fn with_ext(base: &[char], ext: &str) -> (r: String)
    ensures
        r@ == with_ext_of(base@, ext@),
{
    let mut v: Vec<char> = Vec::new();
    extend_chars(&mut v, base);
    let dot = chars_of(".");
    extend_chars(&mut v, dot.as_slice());
    let e = chars_of(ext);
    extend_chars(&mut v, e.as_slice());
    string_of(v.as_slice())
}

fn candidates(base: &str) -> (r: Vec<String>)
    ensures
        r@.map_values(|s: String| s@) == base_candidates(base@),
{
    let b = chars_of(base);
    let mut idx = chars_of(base);
    let index = chars_of("index");
    push_path(&mut idx, index.as_slice());
    let mut r: Vec<String> = Vec::new();
    r.push(String::from_str(base));
    r.push(with_ext(b.as_slice(), "ts"));
    r.push(with_ext(b.as_slice(), "tsx"));
    r.push(with_ext(b.as_slice(), "js"));
    r.push(with_ext(b.as_slice(), "jsx"));
    r.push(with_ext(b.as_slice(), "mjs"));
    r.push(with_ext(b.as_slice(), "cjs"));
    r.push(with_ext(b.as_slice(), "d.ts"));
    r.push(with_ext(idx.as_slice(), "ts"));
    r.push(with_ext(idx.as_slice(), "tsx"));
    r.push(with_ext(idx.as_slice(), "js"));
    r.push(with_ext(idx.as_slice(), "jsx"));
    r.push(with_ext(idx.as_slice(), "mjs"));
    r.push(with_ext(idx.as_slice(), "cjs"));
    assert(r@.map_values(|s: String| s@) =~= base_candidates(base@));
    r
}

/// Resolve a project-relative module base path against the file set:
/// exact file, extension guessing, declaration file, then `index.*` in the
/// directory (see [`base_candidates`]).
pub fn resolve_base(base: &str, files: &FileSet) -> (r: Option<String>)
    ensures
        match r {
            Some(s) => first_member(base_candidates(base@), files@) == Some(s@),
            None => first_member(base_candidates(base@), files@) is None,
        },
{
    let cands = candidates(base);
    let ghost cv = cands@.map_values(|s: String| s@);
    let mut i: usize = 0;
    assert(cv.subrange(0, cv.len() as int) =~= cv);
    while i < cands.len()
        invariant
            i <= cands@.len(),
            cv == cands@.map_values(|s: String| s@),
            cv == base_candidates(base@),
            first_member(cv, files@) == first_member(cv.subrange(i as int, cv.len() as int), files@),
        decreases cands.len() - i,
    {
        let ghost rest = cv.subrange(i as int, cv.len() as int);
        assert(rest.drop_first() =~= cv.subrange(i + 1, cv.len() as int));
        assert(rest[0] == cands@[i as int]@);
        if files.contains(cands[i].as_str()) {
            return Some(cands[i].clone());
        }
        i += 1;
    }
    None
}

/// Resolve `specifier` (e.g. `"../utils/fmt"`) written in the file at
/// `importer` (project-relative), against the indexed `files`. `None` for
/// bare specifiers, specifiers climbing above the project root, and
/// unresolvable paths.
pub fn resolve_module(importer: &str, specifier: &str, files: &FileSet) -> (r: Option<String>)
    ensures
        match r {
            Some(s) => resolve_module_spec(importer@, specifier@, files@) == Some(s@),
            None => resolve_module_spec(importer@, specifier@, files@) is None,
        },
{
    let sp = chars_of(specifier);
    if !(sp.len() > 0 && sp[0] == '.') {
        return None;
    }
    let dir = match parent(importer) {
        Some(d) => d,
        None => return None,
    };
    let mut joined = dir;
    push_path(&mut joined, sp.as_slice());
    let joined_s = string_of(joined.as_slice());
    match normalize_rel_path(joined_s.as_str()) {
        None => None,
        Some(base) => resolve_base(base.as_str(), files),
    }
}

} // verus!

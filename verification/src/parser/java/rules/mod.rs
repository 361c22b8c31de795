//! Deterministic Java fix rules (`java/unused-import`,
//! `java/missing-import`, `java/import-order`): each reports candidates
//! for the shared dry-run/atomic edit engine.

pub mod import_order;
pub mod missing_imports;
pub mod unused_imports;

use vstd::prelude::*;

use crate::engine::plan::specifier::{last_index_of, lemma_last_index_of};
use crate::parser::java::owner_name;
use crate::text::{chars_of, chars_slice, chars_starts_with, rfind_char, string_of};

verus! {

/// `line` starts with `prefix`.
pub open spec fn starts_with(line: Seq<char>, prefix: Seq<char>) -> bool {
    prefix.len() <= line.len() && line.subrange(0, prefix.len() as int) == prefix
}

/// `import static ...;`: the grammar keeps `static` as an anonymous token,
/// so the statement text is the cheapest reliable check.
pub open spec fn is_static_line(line: Seq<char>) -> bool {
    starts_with(line, "import static "@)
}

/// Whether a statement's text is a static import.
pub fn static_line(line: &str) -> (r: bool)
    ensures
        r == is_static_line(line@),
{
    chars_starts_with(chars_of(line).as_slice(), chars_of("import static ").as_slice())
}

/// The FQN without its last segment, when it has a `.`.
pub fn owner_of(fqn: &str) -> (r: Option<String>)
    ensures
        match r {
            Some(o) => owner_name(fqn@) == Some(o@),
            None => owner_name(fqn@) is None,
        },
{
    let cs = chars_of(fqn);
    proof {
        lemma_last_index_of(fqn@, '.');
    }
    match rfind_char(cs.as_slice(), '.') {
        Some(k) => {
            assert(last_index_of(fqn@, '.') == Some(k as int));
            Some(string_of(chars_slice(cs.as_slice(), 0, k).as_slice()))
        },
        None => {
            assert(last_index_of(fqn@, '.') is None);
            None
        },
    }
}

} // verus!

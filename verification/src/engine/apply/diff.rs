//! Unified-diff rendering of edit plans, used by the dry runs:
//! [`render_edits_diff`] is the generic engine over per-file edit groups,
//! [`render_diff`] adds the move line.

use vstd::prelude::*;

use crate::engine::apply::fsops::{edit_views, grouped, rewrite_bytes, rewrite_outcome};
use crate::engine::plan::{rewrite_views, MovePlan};
use crate::engine::{rel_str, Edit, JmoveResult};
use crate::path::rel_text;
use crate::text::{push_str, utf8};
use vstd::utf8::valid_utf8;

verus! {

/// What `String::from_utf8_lossy` makes of `bytes`.
pub uninterp spec fn lossy_text(bytes: Seq<u8>) -> Seq<char>;

/// `String::from_utf8_lossy`: the text of `bytes`, invalid sequences
/// replaced by U+FFFD; valid UTF-8 comes back unchanged.
#[verifier::external_body]
pub(crate) fn lossy(bytes: &[u8]) -> (r: String)
    ensures
        r@ == lossy_text(bytes@),
        valid_utf8(bytes@) ==> utf8(r@) == bytes@,
{
    String::from_utf8_lossy(bytes).into_owned()
}

/// The unified diff `similar` renders for `old` → `new` under the header
/// name `name` (both sides).
pub uninterp spec fn unified_diff_text(name: Seq<char>, old: Seq<char>, new: Seq<char>) -> Seq<char>;

/// `TextDiff::from_lines(old, new).unified_diff().header(name, name)`,
/// rendered to a string.
#[verifier::external_body]
pub(crate) fn unified_diff(name: &str, old: &str, new: &str) -> (r: String)
    ensures
        r@ == unified_diff_text(name@, old@, new@),
{
    similar::TextDiff::from_lines(old, new).unified_diff().header(name, name).to_string()
}

/// The diff text of the groups `0..n`, each patched from its original.
pub open spec fn diffs_of(groups: Seq<(String, Vec<Edit>)>, originals: Seq<Vec<u8>>, n: int) -> Option<Seq<char>>
    decreases n,
{
    if n <= 0 {
        Some(Seq::empty())
    } else {
        match diffs_of(groups, originals, n - 1) {
            None => None,
            Some(prev) => {
                let g = groups[n - 1];
                let orig = originals[n - 1]@;
                if exists|out: Vec<u8>| rewrite_outcome(g.0@, orig, edit_views(g.1@), Ok(out)) {
                    let out = choose|out: Vec<u8>| rewrite_outcome(g.0@, orig, edit_views(g.1@), Ok(out));
                    Some(prev + unified_diff_text(rel_text(g.0@), lossy_text(orig), lossy_text(out@)))
                } else {
                    None
                }
            },
        }
    }
}

/// Render pre-grouped edits as one unified diff per file, in group order;
/// `originals[i]` holds the current bytes of the file of group `i`. The
/// first group whose edits do not apply fails the whole rendering with
/// that error.
pub fn render_edits_diff(by_file: &Vec<(String, Vec<Edit>)>, originals: &Vec<Vec<u8>>) -> (r: JmoveResult<String>)
    requires
        by_file@.len() == originals@.len(),
    ensures
        match r {
            Ok(text) => diffs_of(by_file@, originals@, by_file@.len() as int) == Some(text@),
            Err(e) => exists|i: int| 0 <= i < by_file@.len() && diffs_of(by_file@, originals@, i) is Some
                && rewrite_outcome(by_file@[i].0@, originals@[i]@, edit_views(by_file@[i].1@), Err(e)),
        },
{
    let mut out = String::new();
    let mut i: usize = 0;
    while i < by_file.len()
        invariant
            i <= by_file@.len(),
            by_file@.len() == originals@.len(),
            diffs_of(by_file@, originals@, i as int) == Some(out@),
        decreases by_file.len() - i,
    {
        let file = &by_file[i].0;
        let original = &originals[i];
        let patched = match rewrite_bytes(file.as_str(), original.as_slice(), by_file[i].1.as_slice()) {
            Ok(p) => p,
            Err(e) => return Err(e),
        };
        let name = rel_str(file.as_str());
        let old = lossy(original.as_slice());
        let new = lossy(patched.as_slice());
        let d = unified_diff(name.as_str(), old.as_str(), new.as_str());
        proof {
            let g = by_file@[i as int];
            assert(rewrite_outcome(g.0@, originals@[i as int]@, edit_views(g.1@), Ok(patched)));
            let out2 = choose|out2: Vec<u8>| rewrite_outcome(g.0@, originals@[i as int]@, edit_views(g.1@), Ok(out2));
            assert(out2@ == patched@);
        }
        push_str(&mut out, d.as_str());
        i += 1;
    }
    Ok(out)
}

/// Render a move plan's rewrites as unified diffs plus a final
/// `move <source> -> <target>` line; a plan without rewrites renders the
/// empty string. `by_file` is the plan's per-file grouping (see
/// [`group_by_file`]) and `originals[i]` the current bytes of its `i`-th
/// file.
pub fn render_diff(plan: &MovePlan, by_file: &Vec<(String, Vec<Edit>)>, originals: &Vec<Vec<u8>>) -> (r: JmoveResult<String>)
    requires
        grouped(rewrite_views(plan.rewrites@), by_file@),
        by_file@.len() == originals@.len(),
    ensures
        match r {
            Ok(text) => diffs_of(by_file@, originals@, by_file@.len() as int) is Some && {
                let d = diffs_of(by_file@, originals@, by_file@.len() as int)->0;
                text@ == if d.len() == 0 { d } else {
                    d + "move "@ + rel_text(plan.source@) + " -> "@ + rel_text(plan.target@) + "\n"@
                }
            },
            Err(e) => exists|i: int| 0 <= i < by_file@.len() && diffs_of(by_file@, originals@, i) is Some
                && rewrite_outcome(by_file@[i].0@, originals@[i]@, edit_views(by_file@[i].1@), Err(e)),
        },
{
    let mut out = match render_edits_diff(by_file, originals) {
        Ok(t) => t,
        Err(e) => return Err(e),
    };
    let ghost d = out@;
    let empty = out.as_str().is_empty();
    assert(empty == (d.len() == 0));
    if !empty {
        push_str(&mut out, "move ");
        push_str(&mut out, rel_str(plan.source.as_str()).as_str());
        push_str(&mut out, " -> ");
        push_str(&mut out, rel_str(plan.target.as_str()).as_str());
        push_str(&mut out, "\n");
    }
    assert(diffs_of(by_file@, originals@, by_file@.len() as int) == Some(d));
    assert(out@ == if d.len() == 0 { d } else {
        d + "move "@ + rel_text(plan.source@) + " -> "@ + rel_text(plan.target@) + "\n"@
    });
    Ok(out)
}

} // verus!

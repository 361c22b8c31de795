//! What `check` reports as broken imports, stated against the import
//! table: exactly the relative imports that resolve to nothing.

use vstd::prelude::*;

use crate::cli::output::{all_broken, file_broken, is_broken, line_spec, BrokenView};
use crate::engine::index::ResolvedImport;
use crate::path::rel_text;

verus! {

/// The report line for import `i` of a file: where it sits and what it names.
pub open spec fn broken_entry(file: Seq<char>, es: Seq<ResolvedImport>, text: Seq<char>, i: int) -> BrokenView {
    (rel_text(file), line_spec(text, es[i].record.span.start as int), es[i].record.specifier@)
}

proof fn lemma_file_broken_exact(file: Seq<char>, es: Seq<ResolvedImport>, text: Seq<char>, k: int)
    requires
        0 <= k <= es.len(),
    ensures
        forall|i: int| #![trigger es[i]] 0 <= i < k && es[i].target is None && es[i].record.specifier@.len() > 0
            && es[i].record.specifier@[0] == '.' ==> file_broken(file, es, text, k).contains(broken_entry(file, es, text, i)),
        forall|b: BrokenView| #[trigger] file_broken(file, es, text, k).contains(b) ==> exists|i: int| #![trigger es[i]]
            0 <= i < k && es[i].target is None && es[i].record.specifier@.len() > 0 && es[i].record.specifier@[0] == '.'
            && b == broken_entry(file, es, text, i),
    decreases k,
{
    if k > 0 {
        lemma_file_broken_exact(file, es, text, k - 1);
        let prev = file_broken(file, es, text, k - 1);
        let cur = file_broken(file, es, text, k);
        assert forall|i: int| #![trigger es[i]] 0 <= i < k && es[i].target is None && es[i].record.specifier@.len() > 0
            && es[i].record.specifier@[0] == '.' implies cur.contains(broken_entry(file, es, text, i)) by {
            if i < k - 1 {
                let j = choose|j: int| 0 <= j < prev.len() && prev[j] == broken_entry(file, es, text, i);
                if is_broken(es[k - 1]) {
                    assert(cur[j] == prev[j]);
                }
            } else {
                assert(cur[prev.len() as int] == broken_entry(file, es, text, i));
            }
        }
        assert forall|b: BrokenView| #[trigger] cur.contains(b) implies exists|i: int| #![trigger es[i]]
            0 <= i < k && es[i].target is None && es[i].record.specifier@.len() > 0 && es[i].record.specifier@[0] == '.'
            && b == broken_entry(file, es, text, i) by {
            let j = choose|j: int| 0 <= j < cur.len() && cur[j] == b;
            if j < prev.len() {
                assert(prev[j] == b);
                assert(prev.contains(b));
            } else {
                assert(es[k - 1] == es[k - 1]);
            }
        }
    }
}

proof fn lemma_all_broken_exact(entries: Seq<(String, Vec<ResolvedImport>)>, texts_by_file: Map<Seq<char>, String>, n: int)
    requires
        0 <= n <= entries.len(),
    ensures
        forall|a: int, i: int| #![trigger entries[a].1@[i]] 0 <= a < n && 0 <= i < entries[a].1@.len()
            && entries[a].1@[i].target is None && entries[a].1@[i].record.specifier@.len() > 0
            && entries[a].1@[i].record.specifier@[0] == '.' ==> all_broken(entries, texts_by_file, n).contains(
                broken_entry(entries[a].0@, entries[a].1@, texts_by_file[entries[a].0@]@, i)),
        forall|b: BrokenView| #[trigger] all_broken(entries, texts_by_file, n).contains(b) ==> exists|a: int, i: int|
            #![trigger entries[a].1@[i]] 0 <= a < n && 0 <= i < entries[a].1@.len()
            && entries[a].1@[i].target is None && entries[a].1@[i].record.specifier@.len() > 0
            && entries[a].1@[i].record.specifier@[0] == '.'
            && b == broken_entry(entries[a].0@, entries[a].1@, texts_by_file[entries[a].0@]@, i),
    decreases n,
{
    if n > 0 {
        lemma_all_broken_exact(entries, texts_by_file, n - 1);
        let e = entries[n - 1];
        let prev = all_broken(entries, texts_by_file, n - 1);
        let fb = file_broken(e.0@, e.1@, texts_by_file[e.0@]@, e.1@.len() as int);
        let cur = all_broken(entries, texts_by_file, n);
        assert(cur == prev + fb);
        lemma_file_broken_exact(e.0@, e.1@, texts_by_file[e.0@]@, e.1@.len() as int);
        assert forall|a: int, i: int| #![trigger entries[a].1@[i]] 0 <= a < n && 0 <= i < entries[a].1@.len()
            && entries[a].1@[i].target is None && entries[a].1@[i].record.specifier@.len() > 0
            && entries[a].1@[i].record.specifier@[0] == '.' implies cur.contains(
                broken_entry(entries[a].0@, entries[a].1@, texts_by_file[entries[a].0@]@, i)) by {
            let x = broken_entry(entries[a].0@, entries[a].1@, texts_by_file[entries[a].0@]@, i);
            if a < n - 1 {
                let j = choose|j: int| 0 <= j < prev.len() && prev[j] == x;
                assert(cur[j] == x);
            } else {
                assert(e.1@[i] == entries[a].1@[i]);
                assert(fb.contains(x));
                let j = choose|j: int| 0 <= j < fb.len() && fb[j] == x;
                assert(cur[prev.len() + j] == x);
            }
        }
        assert forall|b: BrokenView| #[trigger] cur.contains(b) implies exists|a: int, i: int|
            #![trigger entries[a].1@[i]] 0 <= a < n && 0 <= i < entries[a].1@.len()
            && entries[a].1@[i].target is None && entries[a].1@[i].record.specifier@.len() > 0
            && entries[a].1@[i].record.specifier@[0] == '.'
            && b == broken_entry(entries[a].0@, entries[a].1@, texts_by_file[entries[a].0@]@, i) by {
            let j = choose|j: int| 0 <= j < cur.len() && cur[j] == b;
            if j < prev.len() {
                assert(prev[j] == b);
                assert(prev.contains(b));
            } else {
                assert(fb[j - prev.len()] == b);
                assert(fb.contains(b));
                let i = choose|i: int| #![trigger e.1@[i]] 0 <= i < e.1@.len() && e.1@[i].target is None
                    && e.1@[i].record.specifier@.len() > 0 && e.1@[i].record.specifier@[0] == '.'
                    && b == broken_entry(e.0@, e.1@, texts_by_file[e.0@]@, i);
                assert(entries[n - 1].1@[i] == e.1@[i]);
            }
        }
    }
}

/// `check` reports exactly the relative imports that resolve to nothing:
/// every import without a target whose specifier starts with `.` (`./x`,
/// `../x` alike) is listed with its file and the line of its specifier,
/// and every listed import is one of them.
pub proof fn law_unresolved_relative_imports_are_reported(
    entries: Seq<(String, Vec<ResolvedImport>)>,
    texts_by_file: Map<Seq<char>, String>,
)
    ensures
        forall|a: int, i: int| #![trigger entries[a].1@[i]] 0 <= a < entries.len() && 0 <= i < entries[a].1@.len()
            && entries[a].1@[i].target is None && entries[a].1@[i].record.specifier@.len() > 0
            && entries[a].1@[i].record.specifier@[0] == '.' ==> all_broken(entries, texts_by_file, entries.len() as int).contains(
                broken_entry(entries[a].0@, entries[a].1@, texts_by_file[entries[a].0@]@, i)),
        forall|b: BrokenView| #[trigger] all_broken(entries, texts_by_file, entries.len() as int).contains(b) ==> exists|a: int, i: int|
            #![trigger entries[a].1@[i]] 0 <= a < entries.len() && 0 <= i < entries[a].1@.len()
            && entries[a].1@[i].target is None && entries[a].1@[i].record.specifier@.len() > 0
            && entries[a].1@[i].record.specifier@[0] == '.'
            && b == broken_entry(entries[a].0@, entries[a].1@, texts_by_file[entries[a].0@]@, i),
{
    lemma_all_broken_exact(entries, texts_by_file, entries.len() as int);
}

} // verus!

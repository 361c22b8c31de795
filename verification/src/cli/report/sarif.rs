//! SARIF 2.1.0 vocabulary: result levels, rule descriptions and the
//! driver's rule registry. The document itself is assembled as JSON by
//! the caller from these parts.

use vstd::prelude::*;

use super::{violation_views, Violation, ViolationView};
use crate::cli::report::checkstyle::first_file_after;
use crate::order::chars_lt;
use crate::text::{chars_of, str_eq};

verus! {

/// The SARIF `level` of a severity.
pub open spec fn level_spec(severity: Seq<char>) -> Seq<char> {
    if severity == "warning"@ {
        "warning"@
    } else if severity == "info"@ {
        "note"@
    } else {
        "error"@
    }
}

/// SARIF `level`: the spec's vocabulary, mapped from the severities.
pub fn level(severity: &str) -> (r: &'static str)
    ensures
        r@ == level_spec(severity@),
{
    if str_eq(severity, "warning") {
        "warning"
    } else if str_eq(severity, "info") {
        "note"
    } else {
        "error"
    }
}

/// The one-line description of a rule id (the id itself when unknown).
pub open spec fn description_spec(id: Seq<char>) -> Seq<char> {
    if id == "broken-import"@ {
        "Relative import specifier cannot be resolved"@
    } else if id == "java/class-name-mismatch"@ {
        "File name must match the public Java type"@
    } else if id == "java/unused-import"@ || id == "ts/unused-import"@ {
        "Import is never referenced"@
    } else if id == "java/missing-import"@ {
        "Referenced type has no import"@
    } else if id == "java/import-order"@ {
        "Imports violate the configured order"@
    } else {
        id
    }
}

/// Stable one-line rule descriptions (`shortDescription.text`).
pub fn description(id: &'static str) -> (r: &'static str)
    ensures
        r@ == description_spec(id@),
{
    if str_eq(id, "broken-import") {
        "Relative import specifier cannot be resolved"
    } else if str_eq(id, "java/class-name-mismatch") {
        "File name must match the public Java type"
    } else if str_eq(id, "java/unused-import") || str_eq(id, "ts/unused-import") {
        "Import is never referenced"
    } else if str_eq(id, "java/missing-import") {
        "Referenced type has no import"
    } else if str_eq(id, "java/import-order") {
        "Imports violate the configured order"
    } else {
        id
    }
}

/// The driver rule registry: each distinct rule id of the first `n`
/// violations once, in text order.
pub open spec fn rule_order(vs: Seq<ViolationView>, n: int) -> Seq<Seq<char>>
    decreases n,
{
    if n <= 0 {
        Seq::empty()
    } else {
        let r = rule_order(vs, n - 1);
        let id = vs[n - 1].0;
        if r.contains(id) {
            r
        } else {
            r.insert(first_file_after(r, id, 0), id)
        }
    }
}

/// The driver rules: each distinct rule once, sorted, with its
/// description.
pub fn driver_rules(violations: &Vec<Violation>) -> (r: Vec<(&'static str, &'static str)>)
    ensures
        r@.map_values(|p: (&'static str, &'static str)| p.0@) == rule_order(violation_views(violations@), violations@.len() as int),
        forall|k: int| 0 <= k < r@.len() ==> (#[trigger] r@[k]).1@ == description_spec(r@[k].0@),
{
    let ghost vv = violation_views(violations@);
    let mut r: Vec<(&'static str, &'static str)> = Vec::new();
    let mut n: usize = 0;
    while n < violations.len()
        invariant
            vv == violation_views(violations@),
            n <= violations@.len(),
            r@.map_values(|p: (&'static str, &'static str)| p.0@) == rule_order(vv, n as int),
            forall|k: int| 0 <= k < r@.len() ==> (#[trigger] r@[k]).1@ == description_spec(r@[k].0@),
        decreases violations.len() - n,
    {
        let id = violations[n].rule;
        assert(vv[n as int].0 == id@);
        let ghost rv = r@.map_values(|p: (&'static str, &'static str)| p.0@);
        let mut seen = false;
        let mut k: usize = 0;
        while k < r.len()
            invariant
                k <= r@.len(),
                rv == r@.map_values(|p: (&'static str, &'static str)| p.0@),
                seen == exists|j: int| 0 <= j < k && rv[j] == id@,
            decreases r.len() - k,
        {
            assert(rv[k as int] == r@[k as int].0@);
            if str_eq(r[k].0, id) {
                seen = true;
            }
            k += 1;
        }
        if seen {
            assert(rv.contains(id@));
        } else {
            assert(!rv.contains(id@)) by {
                if rv.contains(id@) {
                    let j = choose|j: int| 0 <= j < rv.len() && rv[j] == id@;
                }
            }
            let idc = chars_of(id);
            let mut p: usize = 0;
            while p < r.len() && !chars_lt(idc.as_slice(), chars_of(r[p].0).as_slice())
                invariant
                    p <= r@.len(),
                    idc@ == id@,
                    rv == r@.map_values(|p: (&'static str, &'static str)| p.0@),
                    first_file_after(rv, id@, 0) == first_file_after(rv, id@, p as int),
                decreases r.len() - p,
            {
                p += 1;
            }
            let d = description(id);
            r.insert(p, (id, d));
            assert(r@.map_values(|p: (&'static str, &'static str)| p.0@) =~= rv.insert(p as int, id@));
        }
        n += 1;
    }
    r
}

} // verus!

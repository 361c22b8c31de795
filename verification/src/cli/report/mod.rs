//! Machine-readable report files: the findings a run computes, rendered
//! for CI as Checkstyle XML (`.xml`) or SARIF 2.1.0 (`.sarif`), the format
//! chosen by the file name. Unknown names fail early, before any
//! indexing. A clean run still yields a valid empty report.

use vstd::prelude::*;

use crate::cli::fix::FixedFile;
use crate::cli::output::{BrokenImport, CheckData, NameMismatch};
use crate::engine::{JmoveError, JmoveResult};

use crate::path::file_name_of;
use crate::text::{chars_ends_with, chars_of, push_str, string_of};

pub mod checkstyle;
pub mod sarif;

verus! {

/// One finding, detached from the format that renders it.
pub struct Violation {
    /// Stable rule id, e.g. `java/unused-import` or `broken-import`.
    pub rule: &'static str,
    /// `error` | `warning` | `info`.
    pub severity: &'static str,
    /// Human-readable message, as the terminal shows it.
    pub message: String,
    /// Project-relative file path, `/` separated.
    pub file: String,
    /// 1-based line.
    pub line: usize,
    /// Whether the tool can resolve it itself.
    pub fixable: bool,
}

/// A violation as the contracts see it: rule, severity, message, file,
/// line, fixable.
pub type ViolationView = (Seq<char>, Seq<char>, Seq<char>, Seq<char>, int, bool);

/// The view of a violation.
pub open spec fn violation_view(v: Violation) -> ViolationView {
    (v.rule@, v.severity@, v.message@, v.file@, v.line as int, v.fixable)
}

/// The views of a violation sequence.
pub open spec fn violation_views(s: Seq<Violation>) -> Seq<ViolationView> {
    s.map_values(|v: Violation| violation_view(v))
}

/// A requested report destination.
pub enum Report {
    /// SARIF 2.1.0 document.
    Sarif(String),
    /// Checkstyle XML document.
    Checkstyle(String),
}

/// What [`Report::parse`] decides for a requested path, by its file name.
pub open spec fn report_kind(path: Seq<char>) -> Option<bool> {
    let name = match file_name_of(path) {
        Some(n) => n,
        None => Seq::empty(),
    };
    if ends_with(name, ".sarif"@) {
        Some(true)
    } else if ends_with(name, ".xml"@) {
        Some(false)
    } else {
        None
    }
}

/// `s` ends with `p`.
pub open spec fn ends_with(s: Seq<char>, p: Seq<char>) -> bool {
    p.len() <= s.len() && s.subrange(s.len() - p.len(), s.len() as int) == p
}

impl Report {
    /// Validate a requested report path (by its file name) without
    /// touching it: `.sarif` is SARIF, `.xml` Checkstyle, anything else an
    /// invalid argument.
    pub fn parse(requested: Option<&str>) -> (r: JmoveResult<Option<Report>>)
        ensures
            match requested {
                None => r matches Ok(None),
                Some(p) => match report_kind(p@) {
                    Some(true) => r matches Ok(Some(Report::Sarif(q))) && q@ == p@,
                    Some(false) => r matches Ok(Some(Report::Checkstyle(q))) && q@ == p@,
                    None => r matches Err(JmoveError::InvalidArgument(m)) && m@ == "--report '"@ + (match file_name_of(p@) {
                        Some(n) => n,
                        None => Seq::<char>::empty(),
                    }) + "': unsupported file name"@,
                },
            },
    {
        let path = match requested {
            Some(p) => p,
            None => return Ok(None),
        };
        let name = match crate::path::file_name(path) {
            Some(n) => n,
            None => Vec::new(),
        };
        if chars_ends_with(name.as_slice(), chars_of(".sarif").as_slice()) {
            Ok(Some(Report::Sarif(String::from_str(path))))
        } else if chars_ends_with(name.as_slice(), chars_of(".xml").as_slice()) {
            Ok(Some(Report::Checkstyle(String::from_str(path))))
        } else {
            let mut m = String::from_str("--report '");
            push_str(&mut m, string_of(name.as_slice()).as_str());
            push_str(&mut m, "': unsupported file name");
            Err(JmoveError::InvalidArgument(m))
        }
    }
}

/// The violation a broken import is reported as.
pub open spec fn broken_violation(b: BrokenImport) -> ViolationView {
    ("broken-import"@, "error"@, "cannot resolve '"@ + b.import@ + "'"@, b.file@, b.line as int, false)
}

/// The violation a layout mismatch is reported as (fixable by the
/// suggested rename).
pub open spec fn mismatch_violation(m: NameMismatch) -> ViolationView {
    (
        "java/class-name-mismatch"@,
        "error"@,
        "public class '"@ + m.public_class@ + "' must live in '"@ + m.expected_file@ + "'; "@ + m.rename@,
        m.file@,
        m.line as int,
        true,
    )
}

/// The violations of `check`: broken imports, then layout mismatches.
pub open spec fn check_violations(broken: Seq<BrokenImport>, mismatches: Seq<NameMismatch>) -> Seq<ViolationView> {
    broken.map_values(|b: BrokenImport| broken_violation(b)) + mismatches.map_values(|m: NameMismatch| mismatch_violation(m))
}

/// Findings of `check` as report violations.
pub fn from_check(broken: &Vec<BrokenImport>, mismatches: &Vec<NameMismatch>) -> (r: Vec<Violation>)
    ensures
        violation_views(r@) == check_violations(broken@, mismatches@),
{
    let mut out: Vec<Violation> = Vec::new();
    let mut i: usize = 0;
    while i < broken.len()
        invariant
            i <= broken@.len(),
            violation_views(out@) == broken@.map_values(|b: BrokenImport| broken_violation(b)).take(i as int),
        decreases broken.len() - i,
    {
        let b = &broken[i];
        let mut message = String::from_str("cannot resolve '");
        push_str(&mut message, b.import.as_str());
        push_str(&mut message, "'");
        let v = Violation { rule: "broken-import", severity: "error", message, file: b.file.clone(), line: b.line, fixable: false };
        assert(violation_view(v) == broken_violation(*b));
        proof {
            crate::order::lemma_map_push(out@, v, |v: Violation| violation_view(v));
            crate::order::lemma_map_take_push(broken@, i as int, |b: BrokenImport| broken_violation(b));
        }
        out.push(v);
        i += 1;
    }
    let ghost head = violation_views(out@);
    assert(head == broken@.map_values(|b: BrokenImport| broken_violation(b))) by {
        assert(broken@.map_values(|b: BrokenImport| broken_violation(b)).take(broken@.len() as int)
            =~= broken@.map_values(|b: BrokenImport| broken_violation(b)));
    }
    let mut j: usize = 0;
    while j < mismatches.len()
        invariant
            j <= mismatches@.len(),
            head == broken@.map_values(|b: BrokenImport| broken_violation(b)),
            violation_views(out@) == head + mismatches@.map_values(|m: NameMismatch| mismatch_violation(m)).take(j as int),
        decreases mismatches.len() - j,
    {
        let m = &mismatches[j];
        let mut message = String::from_str("public class '");
        push_str(&mut message, m.public_class.as_str());
        push_str(&mut message, "' must live in '");
        push_str(&mut message, m.expected_file.as_str());
        push_str(&mut message, "'; ");
        push_str(&mut message, m.rename.as_str());
        let v = Violation {
            rule: "java/class-name-mismatch",
            severity: "error",
            message,
            file: m.file.clone(),
            line: m.line,
            fixable: true,
        };
        assert(violation_view(v) == mismatch_violation(*m));
        proof {
            crate::order::lemma_map_push(out@, v, |v: Violation| violation_view(v));
            crate::order::lemma_map_take_push(mismatches@, j as int, |m: NameMismatch| mismatch_violation(m));
        }
        out.push(v);
        assert(violation_views(out@) =~= head + mismatches@.map_values(|m: NameMismatch| mismatch_violation(m)).take(j + 1));
        j += 1;
    }
    assert(mismatches@.map_values(|m: NameMismatch| mismatch_violation(m)).take(mismatches@.len() as int)
        =~= mismatches@.map_values(|m: NameMismatch| mismatch_violation(m)));
    out
}

/// The outcome of `check` once its findings are known: exit code 2 when
/// anything was found and 0 otherwise (also in the JSON mode, whose
/// status stays "ok": the command itself succeeded), and the payload.
pub fn check(broken: Vec<BrokenImport>, mismatches: Vec<NameMismatch>) -> (r: (i32, CheckData))
    ensures
        r.0 == if broken@.len() == 0 && mismatches@.len() == 0 {
            crate::cli::exit::OK
        } else {
            crate::cli::exit::BROKEN
        },
        r.1.broken_imports == broken,
        r.1.total == broken@.len(),
        r.1.name_mismatches == mismatches,
{
    let code = if broken.len() == 0 && mismatches.len() == 0 {
        crate::cli::exit::OK
    } else {
        crate::cli::exit::BROKEN
    };
    let total = broken.len();
    (code, CheckData { broken_imports: broken, total, name_mismatches: mismatches })
}

/// The violations of `fix`: every candidate of every file, in order.
pub open spec fn fix_violations(files: Seq<FixedFile>, n: int) -> Seq<ViolationView>
    decreases n,
{
    if n <= 0 {
        Seq::empty()
    } else {
        let f = files[n - 1];
        fix_violations(files, n - 1) + f.fixes@.map_values(|c: crate::cli::fix::FixEntry| (
            c.rule@,
            c.severity@,
            c.message@,
            f.path@,
            c.line as int,
            c.applied,
        ))
    }
}

/// Findings of `fix` (the per-file candidate detail) as report violations.
pub fn from_fix(files: &Vec<FixedFile>) -> (r: Vec<Violation>)
    ensures
        violation_views(r@) == fix_violations(files@, files@.len() as int),
{
    let mut out: Vec<Violation> = Vec::new();
    let mut i: usize = 0;
    while i < files.len()
        invariant
            i <= files@.len(),
            violation_views(out@) == fix_violations(files@, i as int),
        decreases files.len() - i,
    {
        let f = &files[i];
        let ghost head = violation_views(out@);
        let ghost cv = f.fixes@.map_values(|c: crate::cli::fix::FixEntry| (
            c.rule@,
            c.severity@,
            c.message@,
            f.path@,
            c.line as int,
            c.applied,
        ));
        let mut k: usize = 0;
        while k < f.fixes.len()
            invariant
                k <= f.fixes@.len(),
                cv == f.fixes@.map_values(|c: crate::cli::fix::FixEntry| (
                    c.rule@,
                    c.severity@,
                    c.message@,
                    f.path@,
                    c.line as int,
                    c.applied,
                )),
                violation_views(out@) == head + cv.take(k as int),
            decreases f.fixes.len() - k,
        {
            let c = &f.fixes[k];
            let ghost before = out@;
            out.push(Violation {
                rule: c.rule,
                severity: c.severity,
                message: c.message.clone(),
                file: f.path.clone(),
                line: c.line,
                fixable: c.applied,
            });
            assert(violation_views(out@) =~= violation_views(before).push(cv[k as int]));
            assert(cv.take(k + 1) =~= cv.take(k as int).push(cv[k as int]));
            k += 1;
        }
        assert(cv.take(f.fixes@.len() as int) =~= cv);
        i += 1;
    }
    out
}

} // verus!

//! `jmove fix` payloads and decisions: the per-file candidate detail, the
//! check of a requested rule id, and the summary line. Ambiguous findings
//! are reported as non-auto candidates, never applied blindly.

use vstd::prelude::*;

use crate::cli::json::ErrorData;
use crate::cli::output::{line_spec, plural, plural_spec};
use crate::engine::fix::FixPlan;
use crate::engine::{line_of, rel_str, Edit};
use crate::map::TextMap;
use crate::order::{copy_texts, lemma_map_push, lemma_map_take_push, texts};
use crate::parser::{all_rule_ids, rule_ids, severity_name, FixView};
use crate::path::{join, join_chars, rel_text, views};
use crate::text::{chars_of, decimal, push_str, str_eq, string_of, usize_text};

verus! {

/// The edits of the first `n` per-file groups.
pub open spec fn edit_total(groups: Seq<(String, Vec<Edit>)>, n: int) -> int
    decreases n,
{
    if n <= 0 {
        0
    } else {
        edit_total(groups, n - 1) + groups[n - 1].1@.len()
    }
}

/// The issues a fix applies: the edits of all groups, `None` when that
/// count does not fit a `usize`.
pub fn fix_count(groups: &Vec<(String, Vec<Edit>)>) -> (r: Option<usize>)
    ensures
        r matches Some(n) ==> n == edit_total(groups@, groups@.len() as int),
        r is None <==> edit_total(groups@, groups@.len() as int) > usize::MAX,
{
    let mut sum: usize = 0;
    let mut i: usize = 0;
    while i < groups.len()
        invariant
            i <= groups@.len(),
            sum == edit_total(groups@, i as int),
        decreases groups.len() - i,
    {
        match sum.checked_add(groups[i].1.len()) {
            Some(next) => sum = next,
            None => {
                proof {
                    lemma_edit_total_grows(groups@, i as int + 1, groups@.len() as int);
                }
                return None;
            },
        }
        i += 1;
    }
    Some(sum)
}

proof fn lemma_edit_total_grows(groups: Seq<(String, Vec<Edit>)>, m: int, n: int)
    requires
        0 <= m <= n <= groups.len(),
    ensures
        edit_total(groups, m) <= edit_total(groups, n),
    decreases n - m,
{
    if m < n {
        lemma_edit_total_grows(groups, m, n - 1);
    }
}

/// One reported candidate. `applied` is false for ambiguous findings the
/// engine will not touch.
pub struct FixEntry {
    /// Rule that produced the candidate, e.g. `java/unused-import`.
    pub rule: &'static str,
    /// 1-based line of the offending construct.
    pub line: usize,
    /// `error` | `warning` | `info`.
    pub severity: &'static str,
    /// `true` = auto-applied; `false` = needs an agent or human decision.
    pub applied: bool,
    /// Human explanation, as the candidate carries it.
    pub message: String,
    /// Fully-qualified options for an ambiguous finding.
    pub candidates: Vec<String>,
}

/// A file touched (or inspectable) by `fix`.
pub struct FixedFile {
    /// Project-relative path.
    pub path: String,
    /// Candidates for this file, in source order.
    pub fixes: Vec<FixEntry>,
}

/// Apply-mode payload (`status: "ok"`).
pub struct FixData {
    /// Candidates applied to disk.
    pub fixes: usize,
    /// Files rewritten.
    pub files_changed: usize,
    /// Per-file detail, in path order.
    pub changed_files: Vec<FixedFile>,
}

/// Dry-run payload (`status: "dry_run"`).
pub struct FixDryRunData {
    /// Candidates that would be applied.
    pub would_fix: usize,
    /// Files that would be rewritten, in path order.
    pub affected_files: Vec<String>,
    /// Unified diff of the whole plan.
    pub diff: String,
    /// Per-file candidate detail, in path order.
    pub files: Vec<FixedFile>,
}

/// An entry as the contracts see it: rule, line, severity, applied,
/// message, candidate names.
pub type EntryView = (Seq<char>, int, Seq<char>, bool, Seq<char>, Seq<Seq<char>>);

/// The view of an entry.
pub open spec fn entry_view(e: FixEntry) -> EntryView {
    (e.rule@, e.line as int, e.severity@, e.applied, e.message@, texts(e.candidates@))
}

/// The views of an entry list.
pub open spec fn entry_views(s: Seq<FixEntry>) -> Seq<EntryView> {
    s.map_values(|e: FixEntry| entry_view(e))
}

/// The entry a candidate becomes, its line looked up in `text`.
pub open spec fn entry_spec(c: FixView, text: Seq<char>) -> EntryView {
    (c.0, line_spec(text, c.4), severity_name(c.2), c.3, c.1, c.7)
}

/// The entries of a file's candidates.
pub open spec fn entries_spec(cs: Seq<FixView>, text: Seq<char>) -> Seq<EntryView> {
    cs.map_values(|c: FixView| entry_spec(c, text))
}

/// The per-file detail of a plan: one file per plan group, the path in
/// its project-relative form, every candidate with its line in the file's
/// text as `texts_by_file` holds it. `None` exactly when the text of a
/// planned file is missing.
pub fn describe(plan: &FixPlan, texts_by_file: &TextMap<String>) -> (r: Option<Vec<FixedFile>>)
    ensures
        r is None <==> exists|a: int| 0 <= a < plan.view_of().len() && !texts_by_file@.contains_key(#[trigger] plan.view_of()[a].0),
        r matches Some(files) ==> {
            &&& files@.len() == plan.view_of().len()
            &&& forall|a: int| 0 <= a < files@.len() ==> {
                &&& texts_by_file@.contains_key(#[trigger] plan.view_of()[a].0)
                &&& files@[a].path@ == rel_text(plan.view_of()[a].0)
                &&& entry_views(files@[a].fixes@) == entries_spec(plan.view_of()[a].1, texts_by_file@[plan.view_of()[a].0]@)
            }
        },
{
    let ghost v = plan.view_of();
    let mut out: Vec<FixedFile> = Vec::new();
    let mut a: usize = 0;
    while a < plan.files.len()
        invariant
            v == plan.view_of(),
            a <= v.len(),
            out@.len() == a,
            forall|b: int| 0 <= b < a ==> {
                &&& texts_by_file@.contains_key(#[trigger] v[b].0)
                &&& out@[b].path@ == rel_text(v[b].0)
                &&& entry_views(out@[b].fixes@) == entries_spec(v[b].1, texts_by_file@[v[b].0]@)
            },
        decreases plan.files.len() - a,
    {
        let file = &plan.files[a].0;
        let cands = &plan.files[a].1;
        assert(v[a as int] == (file@, crate::parser::fix_views(cands@)));
        let text = match texts_by_file.get(file.as_str()) {
            Some(t) => t,
            None => {
                assert(!texts_by_file@.contains_key(v[a as int].0));
                return None;
            },
        };
        let ghost cv = v[a as int].1;
        let mut fixes: Vec<FixEntry> = Vec::new();
        let mut k: usize = 0;
        while k < cands.len()
            invariant
                cv == crate::parser::fix_views(cands@),
                k <= cands@.len(),
                entry_views(fixes@) == entries_spec(cv, text@).take(k as int),
            decreases cands.len() - k,
        {
            let c = &cands[k];
            let entry = FixEntry {
                rule: c.rule,
                line: line_of(text.as_str(), c.span.start),
                severity: c.severity.as_str(),
                applied: c.auto_fixable,
                message: c.message.clone(),
                candidates: copy_texts(&c.candidates),
            };
            proof {
                lemma_map_push(fixes@, entry, |e: FixEntry| entry_view(e));
                lemma_map_take_push(cv, k as int, |c: FixView| entry_spec(c, text@));
            }
            fixes.push(entry);
            k += 1;
        }
        assert(entries_spec(cv, text@).take(cands@.len() as int) =~= entries_spec(cv, text@));
        out.push(FixedFile { path: rel_str(file.as_str()), fixes });
        a += 1;
    }
    proof {
        if exists|b: int| 0 <= b < v.len() && !texts_by_file@.contains_key(#[trigger] v[b].0) {
            let b = choose|b: int| 0 <= b < v.len() && !texts_by_file@.contains_key(#[trigger] v[b].0);
            assert(texts_by_file@.contains_key(v[b].0));
        }
    }
    Some(out)
}

/// The payload of a run whose plan is empty.
pub fn empty_data() -> (r: FixData)
    ensures
        r.fixes == 0,
        r.files_changed == 0,
        r.changed_files@.len() == 0,
{
    FixData { fixes: 0, files_changed: 0, changed_files: Vec::new() }
}

/// What [`fix_reject`] reports for a requested rule: nothing for no rule
/// or a known one; otherwise an invalid argument listing the known ids.
pub open spec fn fix_reject_spec(rule: Option<Seq<char>>) -> Option<(Seq<char>, Seq<char>, Seq<char>)> {
    match rule {
        None => None,
        Some(name) => if all_rule_ids().contains(name) {
            None
        } else {
            Some((
                "INVALID_ARGUMENT"@,
                "unknown fix rule '"@ + name + "'"@,
                "available rules: "@ + join(all_rule_ids(), ", "@),
            ))
        },
    }
}

/// Reject an unknown `--rule` before any work is done.
pub fn fix_reject(rule: Option<&str>) -> (r: Option<ErrorData>)
    ensures
        crate::cli::json::error_matches(r, fix_reject_spec(match rule {
            Some(s) => Some(s@),
            None => None,
        })),
{
    let name = match rule {
        Some(n) => n,
        None => return None,
    };
    let ids = rule_ids();
    let ghost known = all_rule_ids();
    assert(ids@.map_values(|s: &'static str| s@) == known);
    let mut i: usize = 0;
    while i < ids.len()
        invariant
            i <= ids@.len(),
            rule == Some(name),
            known == all_rule_ids(),
            ids@.map_values(|s: &'static str| s@) == known,
            forall|j: int| 0 <= j < i ==> known[j] != name@,
        decreases ids.len() - i,
    {
        assert(known[i as int] == ids@[i as int]@);
        if str_eq(ids[i], name) {
            assert(known[i as int] == name@);
            assert(known.contains(name@));
            return None;
        }
        i += 1;
    }
    assert(!known.contains(name@));
    let mut parts: Vec<Vec<char>> = Vec::new();
    let mut k: usize = 0;
    while k < ids.len()
        invariant
            k <= ids@.len(),
            ids@.map_values(|s: &'static str| s@) == known,
            views(parts@) == known.take(k as int),
        decreases ids.len() - k,
    {
        let part = chars_of(ids[k]);
        proof {
            lemma_map_push(parts@, part, |x: Vec<char>| x@);
            assert(known.take(k + 1) =~= known.take(k as int).push(known[k as int]));
        }
        parts.push(part);
        k += 1;
    }
    assert(known.take(ids@.len() as int) =~= known);
    let sep = chars_of(", ");
    let joined = join_chars(parts.as_slice(), sep.as_slice());
    let mut message = String::from_str("unknown fix rule '");
    push_str(&mut message, name);
    push_str(&mut message, "'");
    let mut hint = String::from_str("available rules: ");
    push_str(&mut hint, string_of(joined.as_slice()).as_str());
    assert(message@ =~= "unknown fix rule '"@ + name@ + "'"@);
    assert(hint@ =~= "available rules: "@ + join(known, ", "@));
    Some(ErrorData::new("INVALID_ARGUMENT", message, Some(hint)))
}

/// The terminal summary of a `fix` run.
pub open spec fn fix_summary_spec(plan_empty: bool, fixes: usize, files: usize, manual: usize) -> Seq<char> {
    if plan_empty {
        "fix: nothing to change"@
    } else if files == 0 {
        "fix: nothing to change; "@ + decimal(manual as nat) + " manual "@ + plural_spec(manual, "candidate"@) + " (see --json)"@
    } else {
        "fixed "@ + decimal(fixes as nat) + " "@ + plural_spec(fixes, "issue"@) + " in "@ + decimal(files as nat) + " "@
            + plural_spec(files, "file"@)
    }
}

/// The line `fix` prints: nothing to change for an empty plan; for a plan
/// whose candidates are all manual (no file to rewrite), the count of
/// those candidates; otherwise the issues fixed and files rewritten.
pub fn fix_summary(plan_empty: bool, fixes: usize, files: usize, manual: usize) -> (r: String)
    ensures
        r@ == fix_summary_spec(plan_empty, fixes, files, manual),
{
    if plan_empty {
        return String::from_str("fix: nothing to change");
    }
    if files == 0 {
        let mut r = String::from_str("fix: nothing to change; ");
        push_str(&mut r, usize_text(manual).as_str());
        push_str(&mut r, " manual ");
        push_str(&mut r, plural(manual, "candidate").as_str());
        push_str(&mut r, " (see --json)");
        assert(r@ =~= fix_summary_spec(plan_empty, fixes, files, manual));
        r
    } else {
        let mut r = String::from_str("fixed ");
        push_str(&mut r, usize_text(fixes).as_str());
        push_str(&mut r, " ");
        push_str(&mut r, plural(fixes, "issue").as_str());
        push_str(&mut r, " in ");
        push_str(&mut r, usize_text(files).as_str());
        push_str(&mut r, " ");
        push_str(&mut r, plural(files, "file").as_str());
        assert(r@ =~= fix_summary_spec(plan_empty, fixes, files, manual));
        r
    }
}

} // verus!

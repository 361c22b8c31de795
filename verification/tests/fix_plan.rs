use jmove::cli::fix::fix_count;
use jmove::engine::fix::{plan_fix, prune_overlaps};
use jmove::engine::index::{Index, PathAliases};
use jmove::engine::Edit;
use jmove::map::TextMap;
use jmove::parser::{rule_ids, FixCandidate, Severity};

fn candidate(rule: &'static str, severity: Severity, edits: Vec<Edit>) -> FixCandidate {
    let span = edits.first().map_or(0..0, |e| e.span.clone());
    FixCandidate {
        rule,
        message: rule.to_owned(),
        severity,
        auto_fixable: !edits.is_empty(),
        span,
        edits,
        candidates: Vec::new(),
    }
}

fn edit(start: usize, end: usize) -> Edit {
    Edit { span: start..end, old_text: String::new(), new_text: String::new() }
}

#[test]
fn overlapping_lower_severity_candidate_is_deferred() {
    let mut found = vec![
        candidate("order", Severity::Info, vec![edit(0, 40)]),
        candidate("unused", Severity::Warning, vec![edit(10, 20)]),
    ];
    prune_overlaps(&mut found);
    assert!(found[1].auto_fixable);
    assert!(!found[0].auto_fixable);
    assert!(found[0].edits.is_empty());
    assert!(found[0].message.contains("skipped"));
    assert_eq!(found[0].message, "order (skipped: overlaps a higher-priority fix, re-run after applying)");
}

#[test]
fn boundary_touching_and_disjoint_edits_coexist() {
    let mut found = vec![
        candidate("order", Severity::Info, vec![edit(0, 40)]),
        candidate("missing", Severity::Error, vec![edit(40, 40)]),
    ];
    prune_overlaps(&mut found);
    assert!(found.iter().all(|c| c.auto_fixable), "no deferral expected");
}

fn project(source: &str) -> (Index, TextMap<String>) {
    let sources = vec![("src/main/java/p/A.java".to_string(), source.to_string())];
    let index = Index::build("/proj".to_string(), &sources, PathAliases::new());
    let mut texts = TextMap::new();
    texts.insert("src/main/java/p/A.java".to_string(), source.to_string());
    (index, texts)
}

#[test]
fn plan_groups_candidates_and_filters_by_rule() {
    let (index, texts) = project("package p;\n\nimport a.b.User;\n\nclass C {}\n");
    let plan = plan_fix(&index, &texts, None);
    assert_eq!(plan.total(), 1);
    assert_eq!(plan.auto_edits().len(), 1);
    assert_eq!(plan_fix(&index, &texts, Some("java/unused-import")).total(), 1);
    assert!(plan_fix(&index, &texts, Some("ts/unused-import")).is_empty());
}

#[test]
fn clean_project_yields_empty_plan() {
    let (index, texts) = project("package p;\n\nimport a.b.User;\n\nclass C { User u; }\n");
    assert!(plan_fix(&index, &texts, None).is_empty());
}

#[test]
fn rule_ids_list_every_shipped_rule() {
    assert_eq!(rule_ids(), vec!["java/unused-import", "java/missing-import", "java/import-order", "ts/unused-import"]);
}

#[test]
fn ts_files_run_the_ts_unused_import_rule() {
    let sources = vec![("src/app.ts".to_string(), "import { Ghost } from './ghost';
export const x = 1;
".to_string())];
    let index = Index::build("/proj".to_string(), &sources, PathAliases::new());
    let mut texts = TextMap::new();
    texts.insert(sources[0].0.clone(), sources[0].1.clone());
    let plan = plan_fix(&index, &texts, Some("ts/unused-import"));
    assert_eq!(plan.files.len(), 1);
    assert_eq!(plan.files[0].1[0].rule, "ts/unused-import");
    assert!(plan.files[0].1[0].auto_fixable);
    assert!(plan_fix(&index, &texts, Some("java/unused-import")).is_empty());
}

#[test]
fn fix_count_adds_the_edits_of_every_file() {
    let groups = vec![
        ("a.ts".to_string(), vec![edit(0, 1), edit(2, 3)]),
        ("b.ts".to_string(), vec![edit(0, 4)]),
        ("c.ts".to_string(), Vec::new()),
    ];
    assert_eq!(fix_count(&groups), Some(3));
    assert_eq!(fix_count(&Vec::new()), Some(0));
}

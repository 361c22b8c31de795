use jmove::cli::exit;
use jmove::cli::fix::{describe, empty_data, fix_reject, fix_summary};
use jmove::cli::json::{Envelope, ErrorData, MvData, MvDryRunData};
use jmove::cli::output::{
    broken_imports, changed_files, error_lines, mv_reject, mv_summary, name_mismatches, plural, report_check, report_refs,
};
use jmove::engine::apply::{apply, apply_edits, Step};
use jmove::engine::fix::plan_fix;
use jmove::engine::index::{Index, PathAliases};
use jmove::engine::plan::{plan_move, MovePlan};
use jmove::engine::refs::NonImportRef;
use jmove::engine::JmoveError;
use jmove::map::TextMap;

fn project(files: &[(&str, &str)]) -> (Index, TextMap<String>) {
    let sources: Vec<(String, String)> = files.iter().map(|(p, t)| (p.to_string(), t.to_string())).collect();
    let index = Index::build("/proj".to_string(), &sources, PathAliases::new());
    let mut texts = TextMap::new();
    for (p, t) in files {
        texts.insert(p.to_string(), t.to_string());
    }
    (index, texts)
}

const BASIC: &[(&str, &str)] = &[
    ("lib/sum.ts", "export function sum(a: number, b: number) { return a + b; }\n"),
    ("app.ts", "import { sum } from './lib/sum';\nconsole.log(sum(1, 2));\n"),
];

fn basic_plan() -> (MovePlan, TextMap<String>) {
    let (index, texts) = project(BASIC);
    let plan = plan_move(&index, "lib/sum.ts", "utils/sum.ts", None).ok().expect("plan");
    (plan, texts)
}

#[test]
fn plural_adds_an_s_unless_one() {
    assert_eq!(plural(1, "file"), "file");
    assert_eq!(plural(0, "file"), "files");
    assert_eq!(plural(3, "import"), "imports");
}

#[test]
fn mv_summary_counts_imports_and_files() {
    let (plan, _) = basic_plan();
    assert_eq!(mv_summary(&plan, false), "moved lib/sum.ts -> utils/sum.ts, updated 1 import in 1 file");
    assert_eq!(mv_summary(&plan, true), "moved lib/sum.ts -> utils/sum.ts (via git mv), updated 1 import in 1 file");
}

#[test]
fn changed_files_report_line_and_both_specifiers() {
    let (plan, texts) = basic_plan();
    let files = changed_files(&plan, &texts).expect("texts present");
    assert_eq!(files.len(), 1);
    assert_eq!(files[0].path, "app.ts");
    assert_eq!(files[0].changes.len(), 1);
    assert_eq!(files[0].changes[0].line, 1);
    assert_eq!(files[0].changes[0].old, "./lib/sum");
    assert_eq!(files[0].changes[0].new, "./utils/sum");
    assert!(changed_files(&plan, &TextMap::new()).is_none());
}

#[test]
fn mv_payloads_carry_counts_and_backend() {
    let (plan, texts) = basic_plan();
    let changed = changed_files(&plan, &texts).expect("texts present");
    let data = MvData::new(&plan, changed, true, Vec::new());
    assert_eq!((data.source.as_str(), data.target.as_str()), ("lib/sum.ts", "utils/sum.ts"));
    assert_eq!((data.moved, data.updated_imports), (1, 1));
    assert_eq!(data.moved_via, "git");
    assert!(data.moved_files.is_empty());
    assert!(data.left_behind.is_empty());
    let preview = MvDryRunData::new(&plan, "diff".to_string(), false, Vec::new());
    assert_eq!(preview.would_move, "lib/sum.ts");
    assert_eq!(preview.would_update, 1);
    assert_eq!(preview.affected_files, vec!["app.ts".to_string()]);
    assert_eq!(preview.would_move_via, "fs");
    assert_eq!(preview.diff, "diff");
}

#[test]
fn dir_move_payload_lists_every_relocation() {
    let files: &[(&str, &str)] = &[
        ("src/impl/core.ts", "export const core = 1;\n"),
        ("src/impl/index.ts", "export * from './core';\n"),
        ("src/app.ts", "import { core } from './impl/core';\n"),
    ];
    let (index, _) = project(files);
    let members = vec!["src/impl/core.ts".to_string(), "src/impl/index.ts".to_string()];
    let plan = plan_move(&index, "src/impl", "src/impl2", Some(members)).ok().expect("plan");
    let data = MvData::new(&plan, Vec::new(), false, Vec::new());
    assert_eq!(data.moved, 2);
    assert_eq!(data.moved_files.len(), 2);
    assert_eq!(data.moved_files[0].from, "src/impl/core.ts");
    assert_eq!(data.moved_files[0].to, "src/impl2/core.ts");
    assert!(mv_summary(&plan, false).contains("(2 files)"));
}

#[test]
fn mv_pre_flight_rejections() {
    let same = mv_reject("lib/a.ts", "lib//a.ts", true, true, true, true).expect("same path");
    assert_eq!(same.code, "INVALID_ARGUMENT");
    assert_eq!(same.message, "source and target are the same path");
    let missing = mv_reject("lib/nope.ts", "utils/nope.ts", false, false, false, false).expect("missing");
    assert_eq!(missing.code, "SOURCE_NOT_FOUND");
    assert_eq!(missing.message, "source file 'lib/nope.ts' does not exist");
    assert_eq!(missing.hint.as_deref(), Some("check the path or run `jmove check`"));
    let exists = mv_reject("app.ts", "lib/sum.ts", true, true, true, true).expect("exists");
    assert_eq!(exists.code, "TARGET_EXISTS");
    assert_eq!(exists.message, "target path 'lib/sum.ts' already exists");
    let parent = mv_reject("app.ts", "app.ts.d/x.ts", true, false, true, false).expect("parent");
    assert_eq!(parent.code, "INVALID_ARGUMENT");
    assert_eq!(parent.message, "target parent of 'app.ts.d/x.ts' is not a directory");
    assert!(mv_reject("app.ts", "src/app.ts", true, false, false, false).is_none());
    assert!(mv_reject("app.ts", "src/app.ts", true, false, true, true).is_none());
}

#[test]
fn engine_errors_map_to_stable_codes_and_hints() {
    let e = ErrorData::from_core(&JmoveError::PlanRejected("target outside the source root".to_string()));
    assert_eq!(e.code, "PLAN_REJECTED");
    assert_eq!(e.message, "plan rejected: target outside the source root");
    assert_eq!(e.hint.as_deref(), Some("run `jmove check --json` to inspect the import graph"));
    let g = ErrorData::from_core(&JmoveError::Git("boom".to_string()));
    assert_eq!(g.code, "GIT_ERROR");
    assert_eq!(g.hint.as_deref(), Some("retry with --no-git to move without touching git"));
    assert_eq!(ErrorData::from_core(&JmoveError::Io("x".to_string())).code, "IO_ERROR");
    assert_eq!(ErrorData::from_core(&JmoveError::StaleIndex("x".to_string())).code, "STALE_INDEX");
    assert_eq!(ErrorData::from_core(&JmoveError::InvalidArgument("x".to_string())).code, "INVALID_ARGUMENT");
}

#[test]
fn envelopes_name_their_status() {
    assert_eq!(Envelope::ok("mv", 1).status, "ok");
    assert_eq!(Envelope::dry_run("fix", 2).status, "dry_run");
    let e = Envelope::error("check", ErrorData::new("IO_ERROR", "gone".to_string(), None));
    assert_eq!((e.status, e.operation), ("error", "check"));
    assert_eq!(e.data.message, "gone");
}

#[test]
fn unknown_fix_rule_is_rejected_with_the_known_ids() {
    assert!(fix_reject(None).is_none());
    assert!(fix_reject(Some("java/unused-import")).is_none());
    assert!(fix_reject(Some("ts/unused-import")).is_none());
    let e = fix_reject(Some("does/not-exist")).expect("rejected");
    assert_eq!(e.code, "INVALID_ARGUMENT");
    assert_eq!(e.message, "unknown fix rule 'does/not-exist'");
    assert_eq!(
        e.hint.as_deref(),
        Some("available rules: java/unused-import, java/missing-import, java/import-order, ts/unused-import")
    );
}

#[test]
fn fix_summary_lines() {
    assert_eq!(fix_summary(true, 0, 0, 0), "fix: nothing to change");
    assert_eq!(fix_summary(false, 0, 0, 2), "fix: nothing to change; 2 manual candidates (see --json)");
    assert_eq!(fix_summary(false, 0, 0, 1), "fix: nothing to change; 1 manual candidate (see --json)");
    assert_eq!(fix_summary(false, 1, 1, 0), "fixed 1 issue in 1 file");
    assert_eq!(fix_summary(false, 3, 2, 0), "fixed 3 issues in 2 files");
    let e = empty_data();
    assert_eq!((e.fixes, e.files_changed, e.changed_files.len()), (0, 0, 0));
}

#[test]
fn fix_detail_carries_lines_and_severities() {
    let (index, texts) = project(&[("src/main/java/p/A.java", "package p;\n\nimport a.b.User;\n\nclass C {}\n")]);
    let plan = plan_fix(&index, &texts, None);
    let detail = describe(&plan, &texts).expect("texts present");
    assert_eq!(detail.len(), 1);
    assert_eq!(detail[0].path, "src/main/java/p/A.java");
    assert_eq!(detail[0].fixes.len(), 1);
    assert_eq!(detail[0].fixes[0].rule, "java/unused-import");
    assert_eq!(detail[0].fixes[0].line, 3);
    assert_eq!(detail[0].fixes[0].severity, "warning");
    assert!(detail[0].fixes[0].applied);
    assert!(describe(&plan, &TextMap::new()).is_none());
}

#[test]
fn broken_relative_imports_are_reported_with_lines() {
    let files: &[(&str, &str)] = &[
        ("src/ok.ts", "export const ok = 1;\n"),
        ("src/broken.ts", "import { ok } from './ok';\nimport React from 'react';\n\nimport { gone } from './gone';\n"),
    ];
    let (index, texts) = project(files);
    let broken = broken_imports(&index, &texts).expect("texts present");
    assert_eq!(broken.len(), 1);
    assert_eq!((broken[0].file.as_str(), broken[0].line), ("src/broken.ts", 4));
    assert_eq!(broken[0].import, "./gone");
    assert_eq!(broken[0].reason, "file_not_found");
    assert_eq!(report_check(&broken, &vec![]), vec!["src/broken.ts:4: cannot resolve './gone'".to_string()]);
    assert!(broken_imports(&index, &TextMap::new()).is_none());
}

#[test]
fn clean_project_reports_no_findings() {
    let (index, texts) = project(BASIC);
    let broken = broken_imports(&index, &texts).expect("texts present");
    let mismatches = name_mismatches(&index, &texts).expect("texts present");
    assert!(broken.is_empty() && mismatches.is_empty());
    assert_eq!(report_check(&broken, &mismatches), vec!["check: no findings".to_string()]);
    assert_eq!(exit::OK, 0);
    assert_eq!(exit::BROKEN, 2);
    assert_eq!(exit::ERROR, 1);
}

#[test]
fn misnamed_public_class_gets_a_rename_command() {
    let files: &[(&str, &str)] = &[
        ("src/main/java/com/example/Wrong.java", "package com.example;\n\npublic class Right {}\n"),
        ("src/main/java/com/example/Good.java", "package com.example;\n\npublic class Good {}\n"),
    ];
    let (index, texts) = project(files);
    let found = name_mismatches(&index, &texts).expect("texts present");
    assert_eq!(found.len(), 1);
    assert_eq!(found[0].file, "src/main/java/com/example/Wrong.java");
    assert_eq!(found[0].line, 3);
    assert_eq!(found[0].public_class, "Right");
    assert_eq!(found[0].expected_file, "src/main/java/com/example/Right.java");
    assert_eq!(
        found[0].rename,
        "jmove mv 'src/main/java/com/example/Wrong.java' 'src/main/java/com/example/Right.java'"
    );
    let lines = report_check(&vec![], &found);
    assert_eq!(
        lines[0],
        "src/main/java/com/example/Wrong.java:3: public class 'Right' must live in 'src/main/java/com/example/Right.java'; fix: jmove mv 'src/main/java/com/example/Wrong.java' 'src/main/java/com/example/Right.java'"
    );
}

fn reference(file: &str, line: usize) -> NonImportRef {
    NonImportRef { file: file.to_string(), line, token: "lib/sum".to_string(), kind: "module", text: String::new() }
}

#[test]
fn reference_warning_block_caps_at_ten() {
    assert!(report_refs(&vec![]).is_empty());
    let one = report_refs(&vec![reference("README.md", 1)]);
    assert_eq!(
        one,
        vec![
            "warning: 1 non-import reference to moved files may need manual fixing:".to_string(),
            "  README.md:1".to_string(),
        ]
    );
    let many: Vec<NonImportRef> = (1..=12).map(|i| reference("doc.md", i)).collect();
    let lines = report_refs(&many);
    assert_eq!(lines.len(), 12);
    assert_eq!(lines[0], "warning: 12 non-import references to moved files may need manual fixing:");
    assert_eq!(lines[10], "  doc.md:10");
    assert_eq!(lines[11], "  ... and 2 more (see --json non_import_refs)");
}

#[test]
fn errors_print_message_then_hint() {
    assert_eq!(error_lines("boom", None), vec!["jmove: boom".to_string()]);
    assert_eq!(
        error_lines("boom", Some("retry")),
        vec!["jmove: boom".to_string(), "  hint: retry".to_string()]
    );
}

#[test]
fn apply_writes_importers_before_moving_anything() {
    let (plan, _) = basic_plan();
    let steps = apply(&plan);
    assert_eq!(steps.len(), 2);
    match &steps[0] {
        Step::Rewrite { file, edits } => {
            assert_eq!(file, "app.ts");
            assert_eq!(edits.len(), 1);
            assert_eq!(edits[0].old_text, "./lib/sum");
            assert_eq!(edits[0].new_text, "./utils/sum");
        }
        _ => panic!("importer rewrite expected first"),
    }
    match &steps[1] {
        Step::Move { source, target } => assert_eq!((source.as_str(), target.as_str()), ("lib/sum.ts", "utils/sum.ts")),
        _ => panic!("move expected last"),
    }
    let only_edits = apply_edits(&vec![("a.java".to_string(), Vec::new())]);
    assert_eq!(only_edits.len(), 1);
    assert!(matches!(&only_edits[0], Step::Rewrite { file, .. } if file == "a.java"));
}

use jmove::cli::report::checkstyle::build;
use jmove::cli::report::sarif::{description, driver_rules, level};
use jmove::cli::report::{check, from_check, from_fix, Report, Violation};
use jmove::cli::fix::{FixEntry, FixedFile};
use jmove::cli::output::{BrokenImport, NameMismatch};
use jmove::engine::JmoveError;
use jmove::parser::rule_ids;

fn violation(rule: &'static str, severity: &'static str, file: &str, line: usize) -> Violation {
    Violation {
        rule,
        severity,
        message: "he said \"fix <this> & now\"".to_owned(),
        file: file.to_owned(),
        line,
        fixable: true,
    }
}

#[test]
fn groups_files_and_renders_error_attributes() {
    let xml = build(&vec![
        violation("java/unused-import", "warning", "a.java", 1),
        violation("java/unused-import", "warning", "a.java", 4),
        violation("broken-import", "error", "b.ts", 2),
    ]);
    assert!(xml.starts_with("<?xml version=\"1.0\" encoding=\"UTF-8\"?>\n<checkstyle"), "{xml}");
    assert_eq!(xml.matches("<file ").count(), 2);
    assert_eq!(xml.matches("<error ").count(), 3);
    assert!(xml.contains("<error line=\"4\" severity=\"warning\""), "{xml}");
    assert!(xml.contains("source=\"jmove.java.unused-import\""), "{xml}");
    assert!(xml.contains("source=\"jmove.broken-import\""), "{xml}");
}

#[test]
fn attributes_are_escaped() {
    let xml = build(&vec![violation("broken-import", "error", "a&b/c.ts", 1)]);
    assert!(xml.contains("message=\"he said &quot;fix &lt;this&gt; &amp; now&quot;\""), "{xml}");
    assert!(xml.contains("<file name=\"a&amp;b/c.ts\">"), "{xml}");
}

#[test]
fn clean_run_is_a_valid_empty_document() {
    let xml = build(&vec![]);
    assert_eq!(xml, "<?xml version=\"1.0\" encoding=\"UTF-8\"?>\n<checkstyle version=\"10.0\">\n</checkstyle>\n");
}

#[test]
fn every_shipped_rule_id_has_a_description() {
    for id in rule_ids() {
        assert_ne!(description(id), id, "missing description for {id}");
    }
    assert!(!description("broken-import").starts_with("broken-import"));
}

fn sarif_violation(rule: &'static str, severity: &'static str, file: &str, line: usize) -> Violation {
    Violation {
        rule,
        severity,
        message: format!("{rule} at {file}:{line}"),
        file: file.to_owned(),
        line,
        fixable: severity != "error",
    }
}

#[test]
fn driver_lists_each_rule_once_sorted_with_descriptions() {
    let vs = vec![
        sarif_violation("java/unused-import", "warning", "a.java", 1),
        sarif_violation("broken-import", "error", "b.ts", 2),
        sarif_violation("java/unused-import", "warning", "c.java", 3),
    ];
    let rules = driver_rules(&vs);
    let ids: Vec<&str> = rules.iter().map(|r| r.0).collect();
    assert_eq!(ids, ["broken-import", "java/unused-import"]);
    assert_eq!(level(vs[1].severity), "error");
    assert!(rules[0].1.starts_with("Relative"));
}

#[test]
fn sarif_levels_follow_the_spec_vocabulary() {
    assert_eq!(level("warning"), "warning");
    assert_eq!(level("info"), "note");
    assert_eq!(level("error"), "error");
    assert_eq!(level("anything"), "error");
    assert_eq!(description("custom/rule"), "custom/rule");
    assert_eq!(description("java/missing-import"), "Referenced type has no import");
}

#[test]
fn report_destination_is_chosen_by_file_name() {
    assert!(matches!(Report::parse(None), Ok(None)));
    match Report::parse(Some("out/findings.sarif")) {
        Ok(Some(Report::Sarif(p))) => assert_eq!(p, "out/findings.sarif"),
        _ => panic!("expected sarif"),
    }
    match Report::parse(Some("checkstyle.xml")) {
        Ok(Some(Report::Checkstyle(p))) => assert_eq!(p, "checkstyle.xml"),
        _ => panic!("expected checkstyle"),
    }
}

#[test]
fn unknown_report_extension_is_an_invalid_argument() {
    match Report::parse(Some("dir/out.txt")) {
        Err(JmoveError::InvalidArgument(m)) => assert_eq!(m, "--report 'out.txt': unsupported file name"),
        _ => panic!("expected an invalid argument"),
    }
}

fn broken(file: &str, line: usize, import: &str) -> BrokenImport {
    BrokenImport { file: file.to_owned(), line, import: import.to_owned(), reason: "file_not_found" }
}

fn misnamed() -> NameMismatch {
    NameMismatch {
        file: "src/Bad.java".to_owned(),
        line: 3,
        public_class: "Good".to_owned(),
        expected_file: "src/Good.java".to_owned(),
        rename: "jmove mv 'src/Bad.java' 'src/Good.java'".to_owned(),
    }
}

#[test]
fn check_findings_become_error_violations() {
    let vs = from_check(&vec![broken("src/broken.ts", 4, "./gone")], &vec![misnamed()]);
    assert_eq!(vs.len(), 2);
    assert_eq!(vs[0].rule, "broken-import");
    assert_eq!(vs[0].message, "cannot resolve './gone'");
    assert!(!vs[0].fixable);
    assert_eq!(vs[1].rule, "java/class-name-mismatch");
    assert_eq!(
        vs[1].message,
        "public class 'Good' must live in 'src/Good.java'; jmove mv 'src/Bad.java' 'src/Good.java'"
    );
    assert!(vs[1].fixable);
    assert_eq!((vs[1].file.as_str(), vs[1].line), ("src/Bad.java", 3));
}

#[test]
fn check_exit_code_is_two_only_with_findings() {
    let (code, data) = check(vec![], vec![]);
    assert_eq!(code, 0);
    assert_eq!(data.total, 0);
    let (code, data) = check(vec![broken("a.ts", 1, "./x"), broken("b.ts", 2, "./y")], vec![]);
    assert_eq!(code, 2);
    assert_eq!(data.total, 2);
    let (code, data) = check(vec![], vec![misnamed()]);
    assert_eq!(code, 2);
    assert_eq!(data.total, 0);
    assert_eq!(data.name_mismatches.len(), 1);
}

#[test]
fn fix_detail_becomes_one_violation_per_candidate() {
    let files = vec![FixedFile {
        path: "src/App.java".to_owned(),
        fixes: vec![
            FixEntry {
                rule: "java/unused-import",
                line: 2,
                severity: "warning",
                applied: true,
                message: "unused".to_owned(),
                candidates: vec![],
            },
            FixEntry {
                rule: "java/missing-import",
                line: 7,
                severity: "error",
                applied: false,
                message: "ambiguous".to_owned(),
                candidates: vec!["a.Config".to_owned(), "b.Config".to_owned()],
            },
        ],
    }];
    let vs = from_fix(&files);
    assert_eq!(vs.len(), 2);
    assert_eq!((vs[0].rule, vs[0].line, vs[0].fixable), ("java/unused-import", 2, true));
    assert_eq!((vs[1].severity, vs[1].file.as_str(), vs[1].fixable), ("error", "src/App.java", false));
}

use jmove::engine::index::{Index, PathAliases};
use jmove::engine::plan::plan_move;
use jmove::engine::refs::{excerpt, scan, text_file, text_files, token_occurrences, NonImportRef};
use jmove::map::TextMap;

const FILES: &[(&str, &str)] = &[
    ("lib/sum.ts", "export const sum = 3;\n"),
    ("lib/summary.ts", "export const summary = 's';\n"),
    ("app.ts", "import { sum } from './lib/sum';\n"),
    ("README.md", "Use [sum](./lib/sum.ts) via `lib/sum`.\nSee also lib/summary for text.\nLayout note: lib/ holds helpers.\n"),
    ("package.json", "{\"name\": \"refs\", \"main\": \"./lib/sum.ts\"}\n"),
    ("__tests__/sum.test.ts", "jest.mock('../lib/sum');\n"),
    ("package-lock.json", "{\"x\": \"./lib/sum\"}\n"),
    (".notes/refs.md", "stale: ./lib/sum\n"),
];

fn scan_move(src: &str, dst: &str) -> Vec<NonImportRef> {
    let sources: Vec<(String, String)> = FILES.iter().map(|(p, t)| (p.to_string(), t.to_string())).collect();
    let index = Index::build("/proj".to_string(), &sources, PathAliases::new());
    let walked: Vec<(String, u64)> = FILES.iter().map(|(p, t)| (p.to_string(), t.len() as u64)).collect();
    let mut texts = TextMap::new();
    for (p, t) in FILES {
        texts.insert(p.to_string(), t.to_string());
    }
    let is_dir = FILES.iter().any(|(p, _)| p.starts_with(&format!("{src}/")));
    let dir_files = if is_dir {
        Some(FILES.iter().filter(|(p, _)| p.starts_with(&format!("{src}/"))).map(|(p, _)| p.to_string()).collect())
    } else {
        None
    };
    let plan = plan_move(&index, src, dst, dir_files).ok().expect("plan");
    let files = text_files(&index, &walked);
    scan(&plan, is_dir, &files, &texts)
}

fn files_of(refs: &[NonImportRef]) -> Vec<String> {
    refs.iter().map(|r| r.file.clone()).collect()
}

#[test]
fn doc_config_and_mock_references_are_reported() {
    let refs = scan_move("lib/sum.ts", "lib/total.ts");
    let files = files_of(&refs);
    for expected in ["README.md", "package.json", "__tests__/sum.test.ts"] {
        assert!(files.contains(&expected.to_string()), "{expected} missing: {files:?}");
    }
}

#[test]
fn the_import_statement_itself_is_never_reported() {
    let refs = scan_move("lib/sum.ts", "lib/total.ts");
    assert!(!files_of(&refs).contains(&"app.ts".to_string()));
    assert!(!files_of(&refs).contains(&"lib/sum.ts".to_string()));
}

#[test]
fn decoys_lockfiles_and_hidden_dirs_are_not_reported() {
    let refs = scan_move("lib/sum.ts", "lib/total.ts");
    let files = files_of(&refs);
    for absent in ["lib/summary.ts", "package-lock.json", ".notes/refs.md"] {
        assert!(!files.contains(&absent.to_string()), "{absent} leaked: {files:?}");
    }
    assert!(refs.iter().all(|r| r.file != "README.md" || r.line != 2));
}

#[test]
fn one_entry_per_line_keeps_the_highest_ranked_token() {
    let refs = scan_move("lib/sum.ts", "lib/total.ts");
    let readme: Vec<&NonImportRef> = refs.iter().filter(|r| r.file == "README.md").collect();
    assert_eq!(readme.len(), 1);
    assert_eq!(readme[0].line, 1);
    assert_eq!(readme[0].kind, "path");
    assert_eq!(readme[0].token, "lib/sum.ts");
    assert_eq!(readme[0].text, "Use [sum](./lib/sum.ts) via `lib/sum`.");
}

#[test]
fn dir_move_reports_the_directory_prefix() {
    let refs = scan_move("lib", "pkg/lib");
    assert!(refs.iter().any(|r| r.file == "README.md" && r.line == 3 && r.kind == "dir"));
}

#[test]
fn boundary_rules_reject_longer_joined_and_prefixed_names() {
    let none: Vec<usize> = Vec::new();
    assert_eq!(token_occurrences("lib/summary", "lib/sum"), none);
    assert_eq!(token_occurrences("lib/sum-2", "lib/sum"), none);
    assert_eq!(token_occurrences("mylib/sum", "lib/sum"), none);
    assert_eq!(token_occurrences("./lib/sum.ts", "lib/sum"), vec![2]);
    assert_eq!(token_occurrences("x/lib/sum", "lib/sum"), vec![2]);
}

#[test]
fn excerpt_trims_and_caps_the_line() {
    assert_eq!(excerpt("a\n   hello world  \nz", 5), "hello world");
    let long = "x".repeat(150);
    assert_eq!(excerpt(&long, 3).len(), 100);
}

#[test]
fn text_file_filters_locks_extensions_hidden_and_size() {
    assert_eq!(text_file("docs/Readme.MD", 10), Some("docs/Readme.MD".to_string()));
    assert_eq!(text_file("yarn.lock", 10), None);
    assert_eq!(text_file("src/a.rs", 10), None);
    assert_eq!(text_file(".github/notes.md", 10), None);
    assert_eq!(text_file("big.json", 600 * 1024), None);
}

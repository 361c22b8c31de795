use jmove::engine::index::tsconfig::sanitize_jsonc;
use jmove::engine::index::{FileSet, Index, PathAliases, ResolvedImport};
use jmove::parser::ImportRecord;

fn sources(files: &[(&str, &str)]) -> Vec<(String, String)> {
    files.iter().map(|(p, t)| (p.to_string(), t.to_string())).collect()
}

#[test]
fn build_skips_unsupported_files() {
    let src = sources(&[
        ("src/a.ts", "import { b } from './b';\n"),
        ("src/b.ts", "export const b = 1;\n"),
        ("src/legacy.js", "const a = require('./a');\n"),
        ("docs/note.md", "not source\n"),
    ]);
    let index = Index::build("/proj".to_string(), &src, PathAliases::new());
    assert!(index.files.contains("src/a.ts"));
    assert!(index.files.contains("src/b.ts"));
    assert!(index.files.contains("src/legacy.js"));
    assert!(!index.files.contains("docs/note.md"));
}

#[test]
fn build_resolves_relative_specifier_to_indexed_file() {
    let src = sources(&[("src/a.ts", "import { b } from './b';\n"), ("src/b.ts", "export const b = 1;\n")]);
    let index = Index::build("/proj".to_string(), &src, PathAliases::new());
    let imports = index.imports.get("src/a.ts").expect("a.ts must be indexed");
    assert_eq!(imports.len(), 1);
    assert_eq!(imports[0].record.specifier, "./b");
    assert_eq!(imports[0].target.as_deref(), Some("src/b.ts"));
    assert_eq!(index.root, "/proj");
}

#[test]
fn build_resolves_aliases_and_java_fqns() {
    let src = sources(&[
        ("src/app.ts", "import { s } from '@u/str';\n"),
        ("src/utils/str.ts", "export const s = 1;\n"),
        ("j/p/A.java", "package p;\nimport q.B;\nclass A {}\n"),
        ("j/q/B.java", "package q;\npublic class B {}\n"),
    ]);
    let aliases = PathAliases::parse(&sanitize_jsonc(r#"{"compilerOptions": {"paths": {"@u/*": ["src/utils/*"]}}}"#));
    let index = Index::build("/proj".to_string(), &src, aliases);
    let app = index.imports.get("src/app.ts").unwrap();
    assert_eq!(app[0].target.as_deref(), Some("src/utils/str.ts"));
    let a = index.imports.get("j/p/A.java").unwrap();
    assert_eq!(a[0].record.specifier, "q.B");
    assert_eq!(a[0].target.as_deref(), Some("j/q/B.java"));
    assert_eq!(index.packages.get("j/q/B.java").unwrap().name, "q");
}

#[test]
fn scoped_build_keeps_only_the_subtree() {
    let src = sources(&[("guava/A.java", "package a;\nclass A {}\n"), ("android/guava/A.java", "package a;\nclass A {}\n")]);
    let index = Index::build_scoped("/proj".to_string(), &src, Some("guava"), PathAliases::new());
    assert!(index.files.contains("guava/A.java"));
    assert!(!index.files.contains("android/guava/A.java"));
}

#[test]
fn importers_of_returns_sorted_reverse_edges() {
    let mut index = Index::default();
    let edge = |t: &str| ResolvedImport {
        record: ImportRecord { specifier: format!("./{t}"), span: 0..0, is_dynamic: false },
        target: Some(t.to_string()),
    };
    index.imports.insert("z.ts".to_string(), vec![edge("t.ts")]);
    index.imports.insert("a.ts".to_string(), vec![edge("t.ts"), edge("t.ts")]);
    index.imports.insert("m.ts".to_string(), vec![edge("other.ts")]);
    assert_eq!(index.importers_of("t.ts"), vec!["a.ts".to_string(), "z.ts".to_string()]);
}

fn stub_edge(target: &str) -> ResolvedImport {
    ResolvedImport {
        record: ImportRecord { specifier: format!("./{target}"), span: 0..0, is_dynamic: false },
        target: Some(target.to_string()),
    }
}

fn stubbed_graph() -> Index {
    let mut index = Index::build("/proj".to_string(), &Vec::new(), PathAliases::new());
    let edges = [("z.ts", "shared.ts"), ("a.ts", "shared.ts"), ("m.ts", "other.ts")];
    for (file, target) in edges {
        index.imports.insert(file.to_string(), vec![stub_edge(target)]);
    }
    index
}

#[test]
fn index_importers_of_returns_sorted_reverse_edges() {
    let index = stubbed_graph();
    assert_eq!(index.importers_of("shared.ts"), vec!["a.ts".to_string(), "z.ts".to_string()]);
    assert!(index.importers_of("missing.ts").is_empty());
}

#[test]
fn tests_importers_of_returns_sorted_reverse_edges() {
    let index = stubbed_graph();
    assert_eq!(index.importers_of("shared.ts"), vec!["a.ts".to_string(), "z.ts".to_string()]);
    assert!(index.importers_of("missing.ts").is_empty());
}

#[test]
fn java_imports_resolve_through_declared_packages() {
    let src = sources(&[
        (
            "src/main/java/com/example/App.java",
            "package com.example;\n\nimport com.example.util.Text;\nimport java.util.List;\n\npublic class App {}\n",
        ),
        ("src/main/java/com/example/util/Text.java", "package com.example.util;\n\npublic class Text {}\n"),
    ]);
    let index = Index::build("/proj".to_string(), &src, PathAliases::new());
    let decl = index.packages.get("src/main/java/com/example/util/Text.java").expect("declared");
    assert_eq!(decl.name, "com.example.util");
    let imports = index.imports.get("src/main/java/com/example/App.java").expect("indexed");
    assert_eq!(imports[0].target.as_deref(), Some("src/main/java/com/example/util/Text.java"));
    // External (jdk) imports stay unresolved, like TS bare specifiers.
    assert_eq!(imports[1].target, None);
}

#[test]
fn string_contents_survive_sanitizing() {
    let json = r#"{"url": "http://x.com//y", "a": [1, 2,], /* c */ "b": "/*n*/"}"#;
    let cleaned = sanitize_jsonc(json);
    let value: serde_json::Value = serde_json::from_str(&cleaned).unwrap();
    assert_eq!(value["url"], "http://x.com//y");
    assert_eq!(value["b"], "/*n*/");
}

#[test]
fn non_ascii_text_survives_sanitizing() {
    let json = "{\"a\": \"é\", \"b\": [\"ü\",], // note ß\n}";
    assert_eq!(sanitize_jsonc("{\"a\": \"é\"}"), "{\"a\": \"é\"}");
    assert_eq!(sanitize_jsonc(json), "{\"a\": \"é\", \"b\": [\"ü\"], \n}");
}

#[test]
fn unterminated_block_comment_runs_to_the_end() {
    assert_eq!(sanitize_jsonc("{}/* abc"), "{}");
    assert_eq!(sanitize_jsonc("{}/*"), "{}");
    assert_eq!(sanitize_jsonc("{\"a\": 1}/* x */"), "{\"a\": 1}");
}

#[test]
fn aliases_from_a_parsed_document_prefer_the_longest_prefix() {
    let text = r#"{"compilerOptions": {"baseUrl": "src", "paths": {"@a/*": ["lib/*"], "@a/b/*": ["deep/*"], "@n": [1]}}}"#;
    let value: serde_json::Value = serde_json::from_str(text).unwrap();
    let table = PathAliases::from_document(&value);
    assert_eq!(table.len(), 2);
    let mut files = FileSet::new();
    files.add("src/deep/x.ts".to_string());
    files.add("src/lib/b/x.ts".to_string());
    files.add("src/lib/y.ts".to_string());
    assert_eq!(table.resolve("@a/b/x", &files), Some("src/deep/x.ts".to_string()));
    assert_eq!(table.resolve("@a/y", &files), Some("src/lib/y.ts".to_string()));
    assert_eq!(table.resolve("@n", &files), None);
    assert_eq!(PathAliases::parse(text).len(), 2);
    assert_eq!(PathAliases::parse("{not json").len(), 0);
}

#[test]
fn adds_fill_the_set_once_each_in_path_order() {
    let mut files = FileSet::new();
    assert!(files.add("b/x.ts".to_string()));
    assert!(files.add("a.ts".to_string()));
    assert!(files.add("b.ts".to_string()));
    assert!(!files.add("b/x.ts".to_string()));
    assert!(files.contains("a.ts"));
    assert!(!files.contains("c.ts"));
    assert!(files.contains("b//x.ts"));
    assert!(files.contains("b/./x.ts"));
    assert!(!files.contains("./b/x.ts"));
    assert!(files.contains("b/x.ts/"));
    assert!(!files.contains("b/x"));
    assert_eq!(files.sorted(), vec!["a.ts".to_string(), "b/x.ts".to_string(), "b.ts".to_string()]);
}

use jmove::engine::index::FileSet;
use jmove::map::TextMap;
use jmove::parser::java::{JavaClassIndex, TreeSitterJava};
use jmove::parser::ts::TreeSitterTs;
use jmove::parser::{ImportRecord, PackageDecl, SourceLanguage};

fn parse(lang: SourceLanguage, source: &str) -> Vec<ImportRecord> {
    TreeSitterTs::new(lang).extract_imports(source)
}

fn assert_import(source: &str, records: &[ImportRecord], index: usize, spec: &str) {
    let rec = &records[index];
    assert_eq!(rec.specifier, spec);
    assert_eq!(&source[rec.span.clone()], spec);
    let before = source[..rec.span.start].bytes().last().unwrap_or(b'\n');
    let after = source.as_bytes()[rec.span.end];
    assert!(
        (before == b'"' || before == b'\'') && before == after,
        "span must sit exactly between matching quotes, got {before:?} / {after:?}"
    );
}

#[test]
fn import_statements_with_default_and_named_bindings() {
    let src = "import X from './a'\nimport { A, B } from \"../utils/b\";\n";
    let recs = parse(SourceLanguage::TypeScript, src);
    assert_eq!(recs.len(), 2);
    assert_import(src, &recs, 0, "./a");
    assert_import(src, &recs, 1, "../utils/b");
    assert!(recs.iter().all(|r| !r.is_dynamic));
}

#[test]
fn bare_side_effect_import() {
    let src = "import './styles.css';\n";
    let recs = parse(SourceLanguage::TypeScript, src);
    assert_eq!(recs.len(), 1);
    assert_import(src, &recs, 0, "./styles.css");
    assert!(!recs[0].is_dynamic);
}

#[test]
fn type_only_import_is_static() {
    let src = "import type { A } from './types';\n";
    let recs = parse(SourceLanguage::TypeScript, src);
    assert_eq!(recs.len(), 1);
    assert_import(src, &recs, 0, "./types");
    assert!(!recs[0].is_dynamic);
}

#[test]
fn export_from_reexport() {
    let src = "export { A } from './a';\nexport * from './b';\n";
    let recs = parse(SourceLanguage::TypeScript, src);
    assert_eq!(recs.len(), 2);
    assert_import(src, &recs, 0, "./a");
    assert_import(src, &recs, 1, "./b");
}

#[test]
fn require_call_is_dynamic() {
    let src = "const x = require('./a');\n";
    let recs = parse(SourceLanguage::TypeScript, src);
    assert_eq!(recs.len(), 1);
    assert_import(src, &recs, 0, "./a");
    assert!(recs[0].is_dynamic);
}

#[test]
fn dynamic_import_await_and_chained() {
    let src = "const a = await import('./a');\nimport('./b').then((m) => m);\n";
    let recs = parse(SourceLanguage::TypeScript, src);
    assert_eq!(recs.len(), 2);
    assert_import(src, &recs, 0, "./a");
    assert_import(src, &recs, 1, "./b");
    assert!(recs.iter().all(|r| r.is_dynamic));
}

#[test]
fn declarations_and_comments_are_not_captured() {
    let src = "export const x = 1;\n// import y from './nope'\n/* require('./nah') */\n";
    assert!(parse(SourceLanguage::TypeScript, src).is_empty());
}

#[test]
fn nested_imports_inside_functions_and_blocks() {
    let src = "function f() { if (true) { const m = require('./deep'); } }\n";
    let recs = parse(SourceLanguage::JavaScript, src);
    assert_eq!(recs.len(), 1);
    assert_import(src, &recs, 0, "./deep");
}

#[test]
fn jsx_file_uses_tsx_grammar() {
    let src = "export const C = () => <Button onClick={() => require('./a')} />;\n";
    let recs = parse(SourceLanguage::Tsx, src);
    assert_eq!(recs.len(), 1);
    assert_import(src, &recs, 0, "./a");
    assert!(recs[0].is_dynamic);
    assert!(parse(SourceLanguage::TypeScript, src).is_empty(), "JSX must need the TSX grammar to parse fully");
}

#[test]
fn records_are_in_byte_order_with_distinct_spans() {
    let src = "import a from './a';\nexport * from './b';\nconst c = require('./c');\n";
    let recs = parse(SourceLanguage::TypeScript, src);
    let spans: Vec<usize> = recs.iter().map(|r| r.span.start).collect();
    let mut sorted = spans.clone();
    sorted.sort();
    assert_eq!(spans, sorted);
    assert_eq!(recs.len(), 3);
}

#[test]
fn plain_javascript_parses_with_the_ts_grammar() {
    let src = "const x = require('./a');\nimport y from './b';\n";
    let recs = parse(SourceLanguage::JavaScript, src);
    assert_eq!(recs.len(), 2);
    assert_import(src, &recs, 1, "./b");
}

#[test]
fn require_needs_a_string_first_argument() {
    let src = "const x = require(name);\nconst y = load('./z');\n";
    assert!(parse(SourceLanguage::TypeScript, src).is_empty());
}

fn imports(source: &str) -> Vec<ImportRecord> {
    TreeSitterJava::new().extract_imports(source)
}

#[test]
fn extracts_package_with_exact_span() {
    let src = "package com.example.utils;\n\npublic class P {}\n";
    let decl = TreeSitterJava::new().extract_package(src).expect("package");
    assert_eq!(decl.name, "com.example.utils");
    assert_eq!(&src[decl.span.clone()], "com.example.utils");
}

#[test]
fn single_segment_package_is_not_a_scoped_identifier() {
    let src = "package p;\n\npublic class P {}\n";
    let decl = TreeSitterJava::new().extract_package(src).expect("package");
    assert_eq!(decl.name, "p");
    assert_eq!(&src[decl.span.clone()], "p");
}

#[test]
fn package_in_comment_is_not_captured() {
    let src = "// package com.example;\npublic class P {}\n";
    assert!(TreeSitterJava::new().extract_package(src).is_none());
}

#[test]
fn extracts_single_type_and_static_imports() {
    let src = "package p;\nimport a.b.User;\nimport static a.b.User.create;\n";
    let recs = imports(src);
    assert_eq!(recs.len(), 2);
    assert_eq!(recs[0].specifier, "a.b.User");
    assert_eq!(&src[recs[0].span.clone()], "a.b.User");
    assert_eq!(recs[1].specifier, "a.b.User.create");
    assert_eq!(&src[recs[1].span.clone()], "a.b.User.create");
    assert!(recs.iter().all(|r| !r.is_dynamic));
}

#[test]
fn on_demand_imports_are_not_extracted() {
    let src = "package p;\nimport java.util.*;\nimport a.b.User;\n";
    let recs = imports(src);
    assert_eq!(recs.len(), 1);
    assert_eq!(recs[0].specifier, "a.b.User");
}

#[test]
fn imports_inside_nested_types_are_still_top_level() {
    let src = "package p;\nclass A { }\nimport q.B;\n";
    assert_eq!(imports(src).len(), 1);
}

#[test]
fn class_index_maps_package_and_stem() {
    let mut files = FileSet::new();
    files.add("src/main/java/com/example/utils/Parser.java".to_string());
    files.add("src/Main.java".to_string());
    let mut packages = TextMap::new();
    packages.insert(
        "src/main/java/com/example/utils/Parser.java".to_string(),
        PackageDecl { name: "com.example.utils".into(), span: 0..0 },
    );
    let classes = JavaClassIndex::new(&files, &packages);
    assert_eq!(
        classes.resolve("com.example.utils.Parser"),
        Some("src/main/java/com/example/utils/Parser.java".to_string())
    );
    assert_eq!(classes.len(), 1);
}

#[test]
fn resolve_handles_exact_and_member_imports() {
    let mut files = FileSet::new();
    files.add("src/com/example/Parser.java".to_string());
    let mut packages = TextMap::new();
    packages.insert("src/com/example/Parser.java".to_string(), PackageDecl { name: "com.example".into(), span: 0..0 });
    let index = JavaClassIndex::new(&files, &packages);
    assert_eq!(index.resolve("com.example.Parser"), Some("src/com/example/Parser.java".to_string()));
    assert_eq!(index.resolve("com.example.Parser.parse"), Some("src/com/example/Parser.java".to_string()));
    assert_eq!(index.resolve("java.util.List"), None);
    assert_eq!(index.resolve("Parser"), None);
    assert_eq!(index.candidates("Parser"), vec!["com.example.Parser".to_owned()]);
    assert!(index.candidates("List").is_empty());
}

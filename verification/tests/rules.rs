use jmove::engine::index::{Index, PathAliases};
use jmove::parser::java::class_name::mismatch;
use jmove::parser::java::rules::import_order::JavaImportOrder;
use jmove::parser::java::rules::missing_imports::JavaMissingImports;
use jmove::parser::java::rules::unused_imports::{JavaUnusedImports, RULE};
use jmove::parser::ts::unused_imports::TsUnusedImports;
use jmove::parser::{Fix, FixCandidate, Severity};

fn java_unused(source: &str) -> Vec<FixCandidate> {
    JavaUnusedImports::new().fixes("A.java", source, &Index::default())
}

#[test]
fn unused_import_is_deleted_with_its_line() {
    let src = "package p;\n\nimport a.b.User;\n\nclass C { int u; }\n";
    let found = java_unused(src);
    assert_eq!(found.len(), 1);
    let candidate = &found[0];
    assert_eq!(candidate.rule, RULE);
    assert!(candidate.auto_fixable);
    assert_eq!(candidate.severity, Severity::Warning);
    assert_eq!(candidate.message, "unused import 'a.b.User'");
    let edit = &candidate.edits[0];
    assert_eq!(edit.new_text, "");
    assert_eq!(&src[edit.span.clone()], "import a.b.User;\n");
}

#[test]
fn used_types_annotations_and_words_are_kept() {
    let src = "import a.b.User;\nclass C implements User { @User Ann u; }";
    assert!(java_unused(src).is_empty());
    let src = "import a.b.User;\nclass C { UserFactory f; }";
    assert_eq!(java_unused(src).len(), 1);
    let src = "import a.b.User;\n/** see {@link User} */ class C {}";
    assert!(java_unused(src).is_empty());
}

#[test]
fn static_imports_check_member_and_owner_names() {
    let src = "import static a.b.User.create;\nclass C { auto x = create(); }";
    assert!(java_unused(src).is_empty());
    let src = "import static a.b.User.create;\nclass C { auto x = User.create(); }";
    assert!(java_unused(src).is_empty());
    let src = "import static a.b.User.create;\nclass C {}";
    assert_eq!(java_unused(src).len(), 1);
}

#[test]
fn sibling_import_mention_keeps_the_type_import() {
    let src = "import a.b.User;\nimport static a.b.User.create;\nclass C {}";
    assert!(java_unused(src).is_empty());
}

#[test]
fn wildcards_and_crlf_are_handled() {
    let src = "import a.b.*;\nclass C {}";
    assert!(java_unused(src).is_empty());
    let src = "import a.b.User;\r\nclass C {}";
    let found = java_unused(src);
    assert_eq!(found.len(), 1);
    assert_eq!(&src[found[0].edits[0].span.clone()], "import a.b.User;\r\n");
}

fn ts_fixes(source: &str) -> Vec<FixCandidate> {
    TsUnusedImports::new().fixes("a.ts", source, &Index::default())
}

#[test]
fn unused_named_import_is_deleted_with_its_line() {
    let src = "import { A } from './a';\nexport const b = 1;\n";
    let found = ts_fixes(src);
    assert_eq!(found.len(), 1);
    assert!(found[0].auto_fixable);
    assert_eq!(found[0].message, "unused import [A]");
    assert_eq!(&src[found[0].edits[0].span.clone()], "import { A } from './a';\n");
}

#[test]
fn any_live_binding_keeps_the_whole_statement() {
    let src = "import { A, B } from './a';\nconst x: A = A();\n";
    assert!(ts_fixes(src).is_empty());
}

#[test]
fn default_and_namespace_and_alias_bindings() {
    let src = "import React from 'react';\nconst x = 1;\n";
    assert_eq!(ts_fixes(src).len(), 1);
    let src = "import * as ns from './a';\nconst x = 1;\n";
    assert_eq!(ts_fixes(src).len(), 1);
    let src = "import { B as C } from './a';\nconst x = C;\n";
    assert!(ts_fixes(src).is_empty());
    let src = "import { B as C } from './a';\nconst B = 1;\n";
    assert_eq!(ts_fixes(src).len(), 1);
}

#[test]
fn several_bindings_are_listed_in_the_message() {
    let src = "import D, { A, B as C } from './a';\nconst x = 1;\n";
    let found = ts_fixes(src);
    assert_eq!(found.len(), 1);
    assert_eq!(found[0].message, "unused import [D, A, C]");
}

#[test]
fn side_effect_and_reexport_are_never_candidates() {
    let src = "import './styles.css';\nexport { A } from './a';\n";
    assert!(ts_fixes(src).is_empty());
}

#[test]
fn comment_or_string_or_jsx_mention_keeps_the_import() {
    let src = "import Foo from './foo';\n// see Foo\nconst s = \"Foo\";\n";
    assert!(ts_fixes(src).is_empty());
    let tsx = "import Foo from './foo';\nconst x = <Foo />;\n";
    assert!(TsUnusedImports::new().fixes("a.tsx", tsx, &Index::default()).is_empty());
}

#[test]
fn type_only_import_is_deleted_like_any_binding() {
    let src = "import type { A } from './a';\nconst x = 1;\n";
    assert_eq!(ts_fixes(src).len(), 1);
    let src = "import type { A } from './a';\nconst x: A = 1;\n";
    assert!(ts_fixes(src).is_empty());
}

#[test]
fn crlf_line_is_removed_wholly() {
    let src = "import { A } from './a';\r\nexport const b = 1;\r\n";
    let found = ts_fixes(src);
    assert_eq!(&src[found[0].edits[0].span.clone()], "import { A } from './a';\r\n");
}

#[test]
fn used_side_effect_and_dynamic_are_untouched() {
    let src = "const a = require('./a');\nimport { A } from './a';\nexport const x = A;\n";
    assert!(ts_fixes(src).is_empty(), "A is used by `export const x = A`");
}

fn order(source: &str) -> Vec<FixCandidate> {
    JavaImportOrder::new().fixes("A.java", source, &Index::default())
}

#[test]
fn statics_move_first_and_groups_sort_by_ascii() {
    let src = "package p;\n\nimport java.util.List;\nimport com.example.Text;\nimport static java.lang.Math.PI;\nimport java.util.Map;\n\nclass C {}\n";
    let found = order(src);
    assert_eq!(found.len(), 1);
    assert!(found[0].auto_fixable);
    assert_eq!(found[0].severity, Severity::Info);
    assert_eq!(found[0].message, "4 imports are not in google order");
    let edit = &found[0].edits[0];
    assert_eq!(
        edit.new_text,
        "import static java.lang.Math.PI;\n\nimport com.example.Text;\nimport java.util.List;\nimport java.util.Map;\n"
    );
    assert_eq!(&src[edit.span.clone()], edit.old_text);
}

#[test]
fn sorted_and_single_blocks_produce_nothing() {
    let src = "import static a.A;\n\nimport a.B;\nimport b.C;\n\nclass D {}\n";
    assert!(order(src).is_empty());
    assert!(order("import a.B;\nclass D {}\n").is_empty());
}

#[test]
fn duplicates_collapse_and_only_dupes_change_the_block() {
    let src = "import a.B;\nimport a.B;\nimport a.C;\n\nclass D {}\n";
    let found = order(src);
    assert_eq!(found.len(), 1, "dedup alone is a change");
    assert_eq!(found[0].edits[0].new_text, "import a.B;\nimport a.C;\n");
}

#[test]
fn comments_and_foreign_statements_abort_the_rewrite() {
    let src = "import b.B;\n// keep first\nimport a.A;\n\nclass D {}\n";
    assert!(order(src).is_empty());
    let src = "import b.B;\nclass Mid {}\nimport a.A;\n";
    assert!(order(src).is_empty());
}

#[test]
fn crlf_blocks_stay_crlf() {
    let src = "import b.B;\r\nimport a.A;\r\n\r\nclass D {}\r\n";
    let found = order(src);
    assert_eq!(found.len(), 1);
    assert_eq!(found[0].edits[0].new_text, "import a.A;\r\nimport b.B;\r\n");
}

#[test]
fn sorting_applies_to_the_whole_statement_after_the_keyword() {
    let src = "import javax.swing.JDialog;\nimport java.util.List;\n\nclass D {}\n";
    let found = order(src);
    assert_eq!(found[0].edits[0].new_text, "import java.util.List;\nimport javax.swing.JDialog;\n");
}

#[test]
fn duplicates_far_apart_still_collapse() {
    let src = "import a.B;\nimport a.C;\nimport a.B;\n\nclass D {}\n";
    let found = order(src);
    assert_eq!(found.len(), 1);
    assert_eq!(found[0].edits[0].new_text, "import a.B;\nimport a.C;\n");
}

fn index_of(files: &[(&str, &str)]) -> Index {
    let sources: Vec<(String, String)> = files.iter().map(|(p, t)| (p.to_string(), t.to_string())).collect();
    Index::build("/proj".to_string(), &sources, PathAliases::new())
}

fn missing(rel: &str, source: &str, index: &Index) -> Vec<FixCandidate> {
    JavaMissingImports::new().fixes(rel, source, index)
}

const G_CLASS: &str = "package a.b;\n\npublic class G {}\n";

#[test]
fn unique_candidate_gets_an_inserted_import_after_the_package() {
    let index = index_of(&[("src/a/b/G.java", G_CLASS)]);
    let src = "package p;\n\nclass C { G g; }\n";
    let found = missing("src/p/C.java", src, &index);
    assert_eq!(found.len(), 1);
    assert!(found[0].auto_fixable);
    assert_eq!(found[0].edits[0].new_text, "import a.b.G;\n");
    let at = src.find("\n\nclass").unwrap() + 1;
    assert_eq!(found[0].edits[0].span, at..at);
    assert_eq!(found[0].message, "missing import 'a.b.G' for type 'G'");
}

#[test]
fn insertion_lands_after_the_last_existing_import() {
    let index = index_of(&[("src/a/b/G.java", G_CLASS)]);
    let src = "package p;\nimport x.Y;\n\nclass C { G g; Y y; }\n";
    let found = missing("src/p/C.java", src, &index);
    assert_eq!(found.len(), 1);
    assert_eq!(&src[..found[0].edits[0].span.start], "package p;\nimport x.Y;\n");
}

#[test]
fn same_package_declared_imported_and_jdk_names_never_fix() {
    let index = index_of(&[("src/a/b/G.java", G_CLASS), ("src/p/Sibling.java", "package p;\npublic class Sibling {}\n")]);
    let src = "package p;\nclass C { Sibling s; }\n";
    assert!(missing("src/p/C.java", src, &index).is_empty());
    let src = "package p;\nimport a.b.G;\nclass C { G g; H h; void g() {} }\nclass H {}\n";
    assert!(missing("src/p/C.java", src, &index).is_empty());
    let src = "package p;\nimport java.util.List;\nclass C { List l; }\n";
    assert!(missing("src/p/C.java", src, &index).is_empty());
}

#[test]
fn ambiguous_and_wildcard_findings_are_manual_with_candidates() {
    let index = index_of(&[
        ("src/a/b/G.java", G_CLASS),
        ("src/z/G.java", "package z;\npublic class G {}\n"),
        ("src/u/U.java", "package u;\npublic class U {}\n"),
    ]);
    let src = "package p;\nclass C { G g; }\n";
    let found = missing("src/p/C.java", src, &index);
    assert_eq!(found.len(), 1);
    assert!(!found[0].auto_fixable);
    assert!(found[0].edits.is_empty());
    assert_eq!(found[0].candidates, ["a.b.G".to_owned(), "z.G".to_owned()]);
    assert_eq!(
        found[0].message,
        "type 'G' needs an import: the index holds several classes with this name (a.b.G, z.G)"
    );
    let src = "package p;\nimport q.*;\nclass C { U u; }\n";
    let found = missing("src/p/C.java", src, &index);
    assert_eq!(found.len(), 1);
    assert!(!found[0].auto_fixable);
    assert_eq!(found[0].candidates, ["u.U".to_owned()]);
}

#[test]
fn annotations_static_uses_and_crlf_stay_bare_references() {
    let index = index_of(&[("src/a/b/G.java", G_CLASS)]);
    let src = "package p;\r\n\r\nclass C {\r\n @G void m() { G.make(); }\r\n}\r\n";
    let found = missing("src/p/C.java", src, &index);
    assert_eq!(found.len(), 1, "one candidate per name, not per use");
    assert!(found[0].auto_fixable);
    let src = "package p;\nclass C { a.b.G g; }\n";
    assert!(missing("src/p/C.java", src, &index).is_empty());
}

#[test]
fn moved_file_gets_its_sibling_import_like_guava() {
    let index = index_of(&[("src/a/b/G.java", G_CLASS)]);
    let src = "package a.c;\n\nclass H { G wrap() { return null; } }\n";
    let found = missing("src/a/c/H.java", src, &index);
    assert_eq!(found.len(), 1);
    assert!(found[0].auto_fixable);
    assert_eq!(found[0].edits[0].new_text, "import a.b.G;\n");
}

fn m(path: &str, src: &str) -> Option<String> {
    mismatch(path, src).map(|f| f.public_class)
}

#[test]
fn public_type_name_must_equal_file_stem() {
    assert_eq!(m("Foo.java", "package p;\npublic class Bar {}\n").as_deref(), Some("Bar"));
    assert_eq!(m("Foo.java", "package p;\npublic class Foo {}\n"), None);
}

#[test]
fn every_public_top_level_kind_is_checked() {
    assert_eq!(m("A.java", "public interface B { int x(); }").as_deref(), Some("B"));
    assert_eq!(m("A.java", "public enum B { X }").as_deref(), Some("B"));
    assert_eq!(m("A.java", "public record B(int x) {}").as_deref(), Some("B"));
    assert_eq!(m("A.java", "public @interface B {}").as_deref(), Some("B"));
}

#[test]
fn non_public_multiple_or_nested_types_are_not_reported() {
    assert_eq!(m("Foo.java", "class Bar {}\nclass Baz {}"), None);
    assert_eq!(m("Foo.java", "public class A {}\npublic class B {}"), None);
    assert_eq!(m("A.java", "class A { public class B {} }"), None);
    assert_eq!(m("A.java", "class B {}"), None);
}

#[test]
fn info_files_are_skipped_and_span_names_the_class_token() {
    assert_eq!(m("package-info.java", "package p;"), None);
    let src = "package p;\n\npublic class Bar {}\n";
    let found = mismatch("Foo.java", src).unwrap();
    assert_eq!(&src[found.span.clone()], "Bar");
}

use jmove::engine::index::{FileSet, Index, PathAliases, ResolvedImport};
use jmove::engine::index::tsconfig::sanitize_jsonc;
use jmove::engine::plan::java::{java_rewrites, rewrite_fqn};
use jmove::engine::plan::plan_move;
use jmove::engine::{rel_str, JmoveError};
use jmove::parser::resolve::resolve_module;
use jmove::parser::{ImportRecord, PackageDecl};

fn edge(spec: &str, span: std::ops::Range<usize>, target: &str) -> ResolvedImport {
    ResolvedImport {
        record: ImportRecord { specifier: spec.into(), span, is_dynamic: false },
        target: Some(target.to_string()),
    }
}

fn index_with(files: &[&str], imports: Vec<(&str, Vec<ResolvedImport>)>) -> Index {
    let mut ix = Index::default();
    for f in files {
        ix.files.add(f.to_string());
    }
    for (f, r) in imports {
        ix.imports.insert(f.to_string(), r);
    }
    ix
}

#[test]
fn plan_rewrites_sorted_by_file_then_span() {
    let z = vec![edge("./s", 30..33, "s.ts"), edge("./s", 5..8, "s.ts")];
    let a = vec![edge("./s", 0..3, "s.ts")];
    let index = index_with(&["s.ts", "z.ts", "a.ts"], vec![("z.ts", z), ("a.ts", a)]);
    let plan = plan_move(&index, "s.ts", "sub/deep/s.ts", None).ok().unwrap();
    let keys: Vec<(String, usize)> = plan.rewrites.iter().map(|r| (rel_str(&r.file), r.span.start)).collect();
    assert_eq!(keys, [("a.ts".to_string(), 0usize), ("z.ts".into(), 5), ("z.ts".into(), 30)]);
    let r0 = &plan.rewrites[0];
    assert_eq!(r0.file, "a.ts");
    assert_eq!(r0.span, 0..3);
    assert_eq!(r0.old_text, "./s");
    assert_eq!(r0.new_text, "./sub/deep/s");
    assert_eq!(plan.moves.len(), 1);
}

#[test]
fn plan_drops_noop_rewrites() {
    let edges = vec![edge("./lib/fmt", 0..0, "lib/fmt.ts")];
    let index = index_with(&["lib/fmt.ts", "app.ts"], vec![("app.ts", edges)]);
    let plan = plan_move(&index, "lib/fmt.ts", "lib/fmt.js", None).ok().unwrap();
    assert!(plan.rewrites.is_empty());
    assert_eq!(plan.target, "lib/fmt.js");
}

#[test]
fn plan_rejects_bad_source_and_target() {
    let edges = vec![edge("./old", 7..12, "src/old.ts")];
    let index = index_with(&["src/old.ts", "src/app.ts"], vec![("src/app.ts", edges)]);
    let err = plan_move(&index, "ghost.ts", "x.ts", None).err().unwrap();
    assert!(matches!(err, JmoveError::InvalidArgument(_)));
    for target in ["src/app.ts", "src/old.ts"] {
        let err = plan_move(&index, "src/old.ts", target, None).err().unwrap();
        assert!(matches!(err, JmoveError::PlanRejected(_)), "{target}");
    }
}

const UTILS: &str = "src/main/java/com/example/utils";
const CORE: &str = "src/main/java/com/example/core";

fn pkg(name: &str) -> PackageDecl {
    PackageDecl { name: name.into(), span: 8..25 }
}

fn parser() -> String {
    format!("{UTILS}/Parser.java")
}

fn java_index() -> Index {
    let mut ix = Index::default();
    for f in ["src/main/java/App.java".to_string(), parser(), format!("{UTILS}/Text.java"), format!("{CORE}/Service.java")] {
        ix.files.add(f);
    }
    ix.packages.insert(parser(), pkg("com.example.utils"));
    ix.packages.insert(format!("{UTILS}/Text.java"), pkg("com.example.utils"));
    ix.packages.insert(format!("{CORE}/Service.java"), pkg("com.example.core"));
    ix.imports.insert("src/main/java/App.java".to_string(), vec![edge("com.example.utils.Parser", 9..30, &parser())]);
    ix.imports.insert(format!("{CORE}/Service.java"), vec![edge("com.example.utils.Parser.parse", 23..51, &parser())]);
    ix
}

#[test]
fn move_between_packages_rewrites_package_and_all_importers() {
    let target = format!("{CORE}/Parser.java");
    let rewrites = java_rewrites(&java_index(), &parser(), &target).ok().unwrap();
    let got: Vec<(String, String, String)> =
        rewrites.iter().map(|r| (rel_str(&r.file), r.old_text.clone(), r.new_text.clone())).collect();
    assert_eq!(
        got,
        vec![
            ("src/main/java/App.java".to_string(), "com.example.utils.Parser".to_string(), "com.example.core.Parser".to_string()),
            (format!("{CORE}/Service.java"), "com.example.utils.Parser.parse".into(), "com.example.core.Parser.parse".into()),
            (format!("{UTILS}/Parser.java"), "com.example.utils".into(), "com.example.core".into()),
        ]
    );
    assert_eq!(rewrites[2].span, 8..25);
}

#[test]
fn rename_inside_same_package_keeps_package_and_imports_fqn() {
    let target = format!("{UTILS}/Reader.java");
    let rewrites = java_rewrites(&java_index(), &parser(), &target).ok().unwrap();
    let texts: Vec<(&str, &str)> = rewrites.iter().map(|r| (r.old_text.as_str(), r.new_text.as_str())).collect();
    assert_eq!(
        texts,
        [
            ("com.example.utils.Parser", "com.example.utils.Reader"),
            ("com.example.utils.Parser.parse", "com.example.utils.Reader.parse"),
        ]
    );
}

#[test]
fn target_outside_source_root_is_rejected() {
    let err = java_rewrites(&java_index(), &parser(), "other/Parser.java").err().unwrap();
    assert!(matches!(err, JmoveError::PlanRejected(_)), "{}", err.to_string());
    assert!(err.to_string().contains("source root"), "{}", err.to_string());
}

#[test]
fn target_without_java_extension_is_rejected() {
    let err = java_rewrites(&java_index(), &parser(), "src/main/java/com/example/core/Parser.class").err().unwrap();
    assert!(err.to_string().contains(".java extension"), "{}", err.to_string());
}

#[test]
fn package_dir_mismatch_is_rejected() {
    let mut ix = java_index();
    ix.packages.insert(parser(), pkg("com.wrong.pkg"));
    let target = format!("{CORE}/Parser.java");
    let err = java_rewrites(&ix, &parser(), &target).err().unwrap();
    assert!(err.to_string().contains("does not match directory"), "{}", err.to_string());
}

#[test]
fn default_package_allows_only_in_place_rename() {
    let mut ix = java_index();
    ix.packages.remove(&parser());
    let same_dir = format!("{UTILS}/Reader.java");
    assert!(java_rewrites(&ix, &parser(), &same_dir).ok().unwrap().is_empty());
    let other = format!("{CORE}/Parser.java");
    assert!(java_rewrites(&ix, &parser(), &other).err().unwrap().to_string().contains("default package"));
}

#[test]
fn fqn_prefix_swap_keeps_member_suffix() {
    assert_eq!(rewrite_fqn("a.b.C", "x.y.C", "a.b.C"), "x.y.C".to_owned());
    assert_eq!(rewrite_fqn("a.b.C", "x.y.C", "a.b.C.method"), "x.y.C.method".to_owned());
}

fn files(paths: &[&str]) -> FileSet {
    let mut set = FileSet::new();
    for p in paths {
        set.add(p.to_string());
    }
    set
}

fn resolve(importer: &str, specifier: &str, set: &FileSet) -> Option<String> {
    resolve_module(importer, specifier, set)
}

fn some(p: &str) -> Option<String> {
    Some(p.to_string())
}

#[test]
fn exact_specifier_with_extension() {
    let set = files(&["src/a.ts"]);
    assert_eq!(resolve("src/b.ts", "./a.ts", &set), some("src/a.ts"));
}

#[test]
fn guesses_extensions_in_priority_order() {
    let set = files(&["src/a.ts", "src/a.js"]);
    assert_eq!(resolve("src/b.ts", "./a", &set), some("src/a.ts"));
    let only_js = files(&["src/a.js"]);
    assert_eq!(resolve("src/b.ts", "./a", &only_js), some("src/a.js"));
}

#[test]
fn jsx_and_component_specifiers() {
    let set = files(&["src/Comp.tsx"]);
    assert_eq!(resolve("src/app.tsx", "./Comp", &set), some("src/Comp.tsx"));
}

#[test]
fn declaration_file_is_last_resort() {
    let set = files(&["types/globals.d.ts"]);
    assert_eq!(resolve("src/a.ts", "../types/globals", &set), some("types/globals.d.ts"));
    let both = files(&["types/globals.d.ts", "types/globals.ts"]);
    assert_eq!(resolve("src/a.ts", "../types/globals", &both), some("types/globals.ts"));
}

#[test]
fn directory_index_resolution() {
    let set = files(&["pkg/index.ts", "other/index.js", "other/util.ts"]);
    assert_eq!(resolve("src/a.ts", "../pkg", &set), some("pkg/index.ts"));
    assert_eq!(resolve("src/a.ts", "./", &set), None);
    assert_eq!(resolve("src/a.ts", "../other", &set), some("other/index.js"));
}

#[test]
fn bare_specifiers_are_not_project_paths() {
    let set = files(&["react.ts", "lodash.ts"]);
    assert_eq!(resolve("src/a.ts", "react", &set), None);
    assert_eq!(resolve("src/a.ts", "@scope/pkg", &set), None);
    assert_eq!(resolve("src/a.ts", "/abs/path", &set), None);
}

#[test]
fn escaping_the_project_root_resolves_to_none() {
    let set = files(&["evil/x.ts", "outside.ts"]);
    assert_eq!(resolve("src/a.ts", "../../evil/x", &set), None);
    assert_eq!(resolve("a.ts", "../outside", &set), None);
}

#[test]
fn nested_parent_walks_land_inside_the_project() {
    let set = files(&["lib/x.ts", "src/app/main.ts"]);
    assert_eq!(resolve("src/app/main.ts", "../../lib/x", &set), some("lib/x.ts"));
}

#[test]
fn forward_slash_specifiers_and_redundant_dots() {
    let set = files(&["src/nested/dir/deep.ts"]);
    assert_eq!(resolve("src/app.ts", "./nested/./dir/deep", &set), some("src/nested/dir/deep.ts"));
}

#[test]
fn unresolvable_relative_specifier_is_none() {
    let set = files(&["src/a.ts"]);
    assert_eq!(resolve("src/a.ts", "./missing", &set), None);
    assert_eq!(resolve("src/a.ts", "./styles.css", &set), None);
}

#[test]
fn root_level_importer_resolves_plain_sibling() {
    let set = files(&["index.ts", "b.ts"]);
    assert_eq!(resolve("index.ts", "./b", &set), some("b.ts"));
}

fn aliases(json: &str) -> PathAliases {
    PathAliases::parse(&sanitize_jsonc(json))
}

const TSCONFIG: &str = r#"{
  // comment with a brace }
  "compilerOptions": {
    "baseUrl": "./",
    "paths": {
      "@/*": ["src/*"],
      "@utils/*": ["src/shared/utils/*"],
      "@cfg": ["src/config.ts"],
    },
  },
  "include": ["src/**/*"],
}"#;

#[test]
fn jsonc_comments_and_trailing_commas_parse() {
    let a = aliases(TSCONFIG);
    assert_eq!(a.len(), 3);
}

#[test]
fn resolution_prefers_the_longest_matching_prefix() {
    let set = files(&["src/shared/utils/str.ts", "src/utils/str.ts", "src/config.ts"]);
    let a = aliases(TSCONFIG);
    assert_eq!(a.resolve("@utils/str", &set), some("src/shared/utils/str.ts"));
    assert_eq!(a.resolve("@/utils/str", &set), some("src/utils/str.ts"));
    assert_eq!(a.resolve("@cfg", &set), some("src/config.ts"));
    assert_eq!(a.resolve("react", &set), None);
}

#[test]
fn remap_keeps_alias_shape_inside_and_falls_back_outside() {
    let set = files(&["src/utils/str.ts", "src/deep/str.ts", "src/config.ts"]);
    let a = aliases(r#"{"compilerOptions": {"paths": {"@u/*": ["src/utils/*"]}}}"#);
    assert_eq!(a.remap("@u/str", "src/utils/other.ts", &set), some("@u/other"));
    assert!(a.remap("@u/str", "lib/other.ts", &set).is_none());
}

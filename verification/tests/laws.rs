use jmove::cli::report::checkstyle::escape;
use jmove::engine::apply::fsops::rewrite_bytes;
use jmove::engine::fix::prune_overlaps;
use jmove::engine::plan::java::rewrite_fqn;
use jmove::engine::plan::plan_move;
use jmove::engine::plan::specifier::relative_specifier;
use jmove::engine::index::{FileSet, Index, PathAliases};
use jmove::engine::{normalize_rel_path, rel_from_root, rel_str, Edit};
use jmove::parser::resolve::resolve_module;
use jmove::map::TextMap;
use jmove::parser::java::JavaClassIndex;
use jmove::parser::{FixCandidate, PackageDecl, Severity};

#[test]
fn escaped_attributes_hold_no_markup() {
    let e = escape("a<b>\"c\" & d");
    assert_eq!(e, "a&lt;b&gt;&quot;c&quot; &amp; d");
    assert!(!e.contains('<') && !e.contains('>') && !e.contains('"'));
    assert_eq!(escape("plain text/path.ts"), "plain text/path.ts");
}

#[test]
fn fqn_swap_and_swap_back_restores_imports() {
    let old = "com.example.util.Text";
    let new = "com.example.core.Text";
    for spec in ["com.example.util.Text", "com.example.util.Text.shout"] {
        let moved = rewrite_fqn(old, new, spec);
        assert_ne!(moved, spec);
        assert_eq!(rewrite_fqn(new, old, &moved), spec);
    }
}

#[test]
fn specifier_walks_from_importer_to_target() {
    let cases = [
        ("src/a/deep.ts", "src/foo/index.ts", "src/foo/index"),
        ("a/b/c/x.ts", "root/file.ts", "root/file"),
        ("main.ts", "src/util.ts", "src/util"),
        ("src/a.ts", "src/shim.d.ts", "src/shim"),
    ];
    for (importer, target, reached) in cases {
        let spec = relative_specifier(importer, target);
        let dir = match importer.rfind('/') {
            Some(k) => &importer[..k],
            None => "",
        };
        let walked = if dir.is_empty() { spec.clone() } else { format!("{dir}/{spec}") };
        assert_eq!(normalize_rel_path(&walked).as_deref(), Some(reached), "{importer} -> {target}: {spec}");
    }
}

fn candidate(rule: &'static str, severity: Severity, spans: &[(usize, usize)]) -> FixCandidate {
    let edits: Vec<Edit> = spans
        .iter()
        .map(|&(s, e)| Edit { span: s..e, old_text: String::new(), new_text: String::new() })
        .collect();
    FixCandidate {
        rule,
        message: rule.to_owned(),
        severity,
        auto_fixable: true,
        span: spans[0].0..spans[0].1,
        edits,
        candidates: Vec::new(),
    }
}

#[test]
fn pruned_candidates_never_overlap() {
    let mut found = vec![
        candidate("order", Severity::Info, &[(0, 50)]),
        candidate("unused", Severity::Warning, &[(10, 20), (60, 70)]),
        candidate("missing", Severity::Error, &[(65, 65)]),
        candidate("other", Severity::Warning, &[(50, 60)]),
    ];
    prune_overlaps(&mut found);
    for i in 0..found.len() {
        for j in 0..found.len() {
            if i == j {
                continue;
            }
            for a in &found[i].edits {
                for b in &found[j].edits {
                    assert!(!(a.span.start < b.span.end && b.span.start < a.span.end), "{i} and {j} overlap");
                }
            }
        }
    }
    // The error's insertion at 65 lands inside the warning's 60..70
    // deletion, so the warning waits for the next run; the rest fits.
    assert!(!found[1].auto_fixable);
    assert!(found[1].edits.is_empty());
    assert!(found[0].auto_fixable && found[2].auto_fixable && found[3].auto_fixable);
}

#[test]
fn normalizing_twice_changes_nothing() {
    for raw in ["./src//a/../b.ts", "lib/./x/y/../../sum.ts", "a/b/c"] {
        let once = normalize_rel_path(raw).expect("normalizes");
        assert_eq!(normalize_rel_path(&once), Some(once.clone()));
        assert_eq!(rel_str(&once), once);
    }
    assert_eq!(normalize_rel_path("../outside.ts"), None);
}

#[test]
fn user_paths_come_out_normalized() {
    let rel = rel_from_root("/proj", "/proj/src/./lib/../app.ts").ok().expect("inside the root");
    assert_eq!(rel, "src/app.ts");
    assert_eq!(normalize_rel_path(&rel), Some(rel.clone()));
    assert!(rel_from_root("/proj", "/elsewhere/app.ts").is_err());
}

#[test]
fn edits_change_only_their_spans() {
    let original = b"import a from './x';\nimport b from './y';\n";
    let edits = vec![
        Edit { span: 15..18, old_text: "./x".to_string(), new_text: "../lib/x".to_string() },
        Edit { span: 36..39, old_text: "./y".to_string(), new_text: "./z".to_string() },
    ];
    let out = rewrite_bytes("a.ts", original, &edits).ok().expect("applies");
    assert_eq!(String::from_utf8(out).unwrap(), "import a from '../lib/x';\nimport b from './z';\n");
}

#[test]
fn rewritten_specifier_resolves_to_the_moved_file() {
    let mut files = FileSet::new();
    for f in ["src/ui/view.ts", "src/core/text.ts", "src/core/index.ts", "lib/legacy.js", "main.ts"] {
        files.add(f.to_string());
    }
    for (importer, target) in [
        ("src/ui/view.ts", "src/core/text.ts"),
        ("main.ts", "src/core/index.ts"),
        ("src/core/text.ts", "lib/legacy.js"),
        ("src/ui/view.ts", "main.ts"),
    ] {
        let spec = relative_specifier(importer, target);
        assert!(spec.starts_with("./") || spec.starts_with("../"), "{spec}");
        assert_eq!(
            resolve_module(importer, &spec, &files).as_deref(),
            Some(target),
            "{importer} -> {target} via {spec}"
        );
    }
}

#[test]
fn moved_java_file_gets_the_package_of_its_new_directory() {
    let sources = vec![
        ("src/main/java/com/example/util/Text.java".to_string(), "package com.example.util;\n\npublic class Text {}\n".to_string()),
        (
            "src/main/java/com/example/app/App.java".to_string(),
            "package com.example.app;\n\nimport com.example.util.Text;\n\npublic class App {}\n".to_string(),
        ),
    ];
    let index = Index::build("/proj".to_string(), &sources, PathAliases::new());
    let target = "src/main/java/com/example/core/deep/Text.java";
    let plan = plan_move(&index, "src/main/java/com/example/util/Text.java", target, None)
        .ok()
        .expect("plan");
    let decl = plan.rewrites.iter().find(|r| r.old_text == "com.example.util").expect("package rewrite");
    assert_eq!(decl.new_text, "com.example.core.deep");
    let dir = &target[..target.rfind('/').unwrap()];
    assert!(dir.ends_with(&decl.new_text.replace('.', "/")));
    let import = plan.rewrites.iter().find(|r| r.file.ends_with("App.java")).expect("import rewrite");
    assert_eq!(import.new_text, "com.example.core.deep.Text");
}

#[test]
fn colliding_classes_resolve_to_the_first_file() {
    let mut files = FileSet::new();
    let mut packages = TextMap::new();
    for f in ["src/b/Text.java", "src/a/Text.java", "src/c/Other.java", "src/Main.java"] {
        files.add(f.to_string());
    }
    for (f, pkg) in [("src/b/Text.java", "com.x"), ("src/a/Text.java", "com.x"), ("src/c/Other.java", "com.y")] {
        packages.insert(f.to_string(), PackageDecl { name: pkg.into(), span: 0..0 });
    }
    let index = JavaClassIndex::new(&files, &packages);
    assert_eq!(index.len(), 2);
    assert_eq!(index.resolve("com.x.Text"), Some("src/a/Text.java".to_string()));
    assert_eq!(index.resolve("com.y.Other"), Some("src/c/Other.java".to_string()));
    assert_eq!(index.resolve("Main"), None);
    assert_eq!(index.candidates("Text"), vec!["com.x.Text".to_string()]);
    assert!(index.candidates("Main").is_empty());
}

use jmove::engine::apply::fsops::{group_by_file, sibling_temp};
use jmove::engine::apply::git::{git_failure, in_index_from_output, trim};
use jmove::engine::apply::{render_diff, render_edits_diff, rollback_error, would_use_git, GitMode, Run, UndoStep};
use jmove::engine::plan::{FileMove, MovePlan, Rewrite};
use jmove::engine::{Edit, JmoveError};

const OLD: &str = "import {\n  fmt,\n} from '../lib/fmt';\n";

fn plan(rewrites: Vec<Rewrite>) -> MovePlan {
    MovePlan {
        source: "lib/fmt.ts".into(),
        target: "deep/fmt.ts".into(),
        moves: vec![FileMove { source: "lib/fmt.ts".into(), target: "deep/fmt.ts".into() }],
        rewrites,
        left_behind: Vec::new(),
        prune_dirs: Vec::new(),
    }
}

fn fmt_rewrite() -> Rewrite {
    Rewrite { file: "src/app.ts".into(), span: 24..34, old_text: "../lib/fmt".into(), new_text: "../deep/fmt".into() }
}

#[test]
fn render_diff_smoke() {
    let p = plan(vec![fmt_rewrite()]);
    let by_file = group_by_file(&p);
    let originals = vec![OLD.as_bytes().to_vec()];
    let diff = render_diff(&p, &by_file, &originals).ok().expect("renders");
    assert!(diff.contains("--- src/app.ts") && diff.contains("+++ src/app.ts"));
    assert!(diff.contains("@@"));
    assert!(diff.contains("-} from '../lib/fmt';") && diff.contains("+} from '../deep/fmt';"));
    assert!(diff.ends_with("move lib/fmt.ts -> deep/fmt.ts\n"));
    let empty = plan(Vec::new());
    let none = group_by_file(&empty);
    assert_eq!(render_diff(&empty, &none, &Vec::new()).ok().expect("renders"), "");
}

#[test]
fn stale_file_fails_the_diff() {
    let edits = vec![("src/app.ts".to_string(), vec![Edit { span: 24..34, old_text: "../lib/fmt".into(), new_text: "x".into() }])];
    let changed = vec![b"import {\n  fmt,\n} from '../lib/xyz';\n".to_vec()];
    match render_edits_diff(&edits, &changed) {
        Err(JmoveError::StaleIndex(m)) => assert!(m.starts_with("'src/app.ts' changed since indexing"), "{m}"),
        _ => panic!("expected a stale index"),
    }
}

#[test]
fn git_is_used_only_when_allowed_and_tracked() {
    assert!(would_use_git(GitMode::Auto, true));
    assert!(!would_use_git(GitMode::Auto, false));
    assert!(!would_use_git(GitMode::Disabled, true));
    assert!(in_index_from_output(Some("lib/sum.ts\n")));
    assert!(!in_index_from_output(Some(" \n\t")));
    assert!(!in_index_from_output(None));
    assert_eq!(trim("  a b\n"), "a b");
}

#[test]
fn git_failures_quote_the_trimmed_stderr() {
    match git_failure("mv", "fatal: not under version control\n") {
        JmoveError::Git(m) => assert_eq!(m, "`git mv` failed: fatal: not under version control"),
        _ => panic!("expected a git error"),
    }
}

#[test]
fn temp_file_sits_next_to_its_target() {
    assert_eq!(sibling_temp("/proj/src/app.ts"), "/proj/src/app.ts.jmove-tmp");
}

#[test]
fn undo_runs_newest_first() {
    let mut run = Run::new("/proj".to_string());
    let patched = run.rewrite_one("src/app.ts", OLD.as_bytes().to_vec(), &[fmt_rewrite().to_edit()]).ok().expect("applies");
    assert_eq!(String::from_utf8(patched).unwrap(), "import {\n  fmt,\n} from '../deep/fmt';\n");
    run.record_dirs(vec!["/proj/deep".to_string()]);
    run.record_move("lib/fmt.ts".to_string(), "deep/fmt.ts".to_string(), false);
    let applied = run.applied(1, "deep/fmt.ts".to_string());
    assert!(!applied.via_git);
    assert_eq!(applied.files_rewritten, 1);
    let steps = run.undo_steps();
    assert_eq!(steps.len(), 3);
    assert!(matches!(&steps[0], UndoStep::MoveBack { from, to, via_git: false } if from == "deep/fmt.ts" && to == "lib/fmt.ts"));
    assert!(matches!(&steps[1], UndoStep::Restore { file, bytes } if file == "src/app.ts" && bytes == OLD.as_bytes()));
    assert!(matches!(&steps[2], UndoStep::RemoveDir { dir } if dir == "/proj/deep"));
    assert!(run.undo_steps().is_empty());
}

#[test]
fn incomplete_rollback_names_what_is_left() {
    let err = JmoveError::Git("`git mv` failed: boom".to_string());
    match rollback_error(JmoveError::Git("x".to_string()), &Vec::new()) {
        JmoveError::Git(m) => assert_eq!(m, "x"),
        _ => panic!("the original error stays"),
    }
    let problems = vec!["could not restore a.ts: denied".to_string(), "could not move back b.ts: gone".to_string()];
    match rollback_error(err, &problems) {
        JmoveError::Io(m) => assert_eq!(
            m,
            "git error: `git mv` failed: boom; rollback incomplete: could not restore a.ts: denied; could not move back b.ts: gone"
        ),
        _ => panic!("expected an io error"),
    }
}

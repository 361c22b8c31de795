use jmove::engine::apply::fsops::rewrite_bytes;
use jmove::engine::apply::GitMode;
use jmove::engine::plan::specifier::relative_specifier;
use jmove::engine::{normalize_rel_path, rel_from_root, rel_str, Edit, JmoveError};

fn edit(start: usize, end: usize, old: &str, new: &str) -> Edit {
    Edit { span: start..end, old_text: old.into(), new_text: new.into() }
}

fn text(bytes: &[u8]) -> String {
    String::from_utf8(bytes.to_vec()).expect("valid utf-8")
}

#[test]
fn rel_str_uses_forward_slashes() {
    assert_eq!(rel_str("src/main/java/A.java"), "src/main/java/A.java");
    assert_eq!(rel_str("a.ts"), "a.ts");
    assert_eq!(rel_str(""), "");
}

#[test]
fn rel_from_root_resolves_inside_and_rejects_outside() {
    let root = "/tmp/proj";
    assert_eq!(rel_from_root(root, "src/a.ts").ok().unwrap(), "src/a.ts");
    assert_eq!(rel_from_root(root, "/tmp/proj/./src/../src/b.ts").ok().unwrap(), "src/b.ts");
    assert!(rel_from_root(root, "/elsewhere/x.ts").is_err());
    assert!(rel_from_root(root, "../x.ts").is_err());
}

#[test]
fn replaces_inserts_and_deletes_in_one_pass() {
    let src = b"one\ntwo\nthree\n";
    let edits = [edit(4, 7, "two", "TWO"), edit(8, 14, "three\n", ""), edit(0, 0, "", "zero\n")];
    let out = rewrite_bytes("f.txt", src, &edits).ok().unwrap();
    assert_eq!(text(&out), "zero\none\nTWO\n");
}

#[test]
fn insertions_at_one_offset_keep_input_order() {
    let src = b"head\ntail\n";
    let edits = [edit(5, 5, "", "b\n"), edit(5, 5, "", "a\n")];
    let out = rewrite_bytes("f.txt", src, &edits).ok().unwrap();
    assert_eq!(text(&out), "head\nb\na\ntail\n");
}

#[test]
fn overlapping_or_malformed_spans_are_rejected() {
    let src = b"abcdefgh";
    let overlap = [edit(2, 6, "cdef", "X"), edit(4, 8, "efgh", "Y")];
    let err = rewrite_bytes("f.txt", src, &overlap).err().unwrap();
    assert!(matches!(err, JmoveError::PlanRejected(_)), "{}", err.to_string());
    let malformed = [edit(6, 2, "", "X")];
    let err = rewrite_bytes("f.txt", src, &malformed).err().unwrap();
    assert!(matches!(err, JmoveError::PlanRejected(_)), "{}", err.to_string());
}

#[test]
fn overlap_message_lists_the_spans() {
    let overlap = [edit(2, 6, "cdef", "X"), edit(4, 8, "efgh", "Y")];
    let err = rewrite_bytes("dir/f.txt", b"abcdefgh", &overlap).err().unwrap();
    assert_eq!(
        err.to_string(),
        "plan rejected: overlapping or malformed edits in 'dir/f.txt': [2..6, 4..8]"
    );
}

#[test]
fn stale_or_off_boundary_edits_are_rejected() {
    let err = rewrite_bytes("f.txt", b"abcd", &[edit(0, 4, "wrong", "X")]).err().unwrap();
    assert!(matches!(err, JmoveError::StaleIndex(_)), "{}", err.to_string());
    let err = rewrite_bytes("f.txt", "ä\n".as_bytes(), &[edit(1, 1, "", "x")]).err().unwrap();
    assert!(matches!(err, JmoveError::StaleIndex(_)), "{}", err.to_string());
}

#[test]
fn stale_message_quotes_the_expected_text() {
    let err = rewrite_bytes("f.txt", b"abcd", &[edit(0, 4, "wrong", "X")]).err().unwrap();
    assert_eq!(
        err.to_string(),
        "index is stale: 'f.txt' changed since indexing (expected \"wrong\" at 0..4)"
    );
}

#[test]
fn from_no_git_maps_the_cli_flag() {
    assert_eq!(GitMode::from_no_git(false), GitMode::Auto);
    assert_eq!(GitMode::from_no_git(true), GitMode::Disabled);
    assert_eq!(GitMode::default(), GitMode::Auto);
}

#[test]
fn relative_specifier_table() {
    let cases = [
        ("src/a.ts", "src/b.ts", "./b"),
        ("src/a.ts", "src/lib/b.ts", "./lib/b"),
        ("src/lib/a.ts", "src/b.ts", "../b"),
        ("a/b/c/x.ts", "root/file.ts", "../../../root/file"),
        ("main.ts", "src/util.ts", "./src/util"),
        ("src/main.ts", "util.js", "../util"),
        ("src/a.ts", "src/foo/index.ts", "./foo/index"),
        ("src/a/deep.ts", "src/foo/index.ts", "../foo/index"),
        ("src/a.ts", "src/shim.d.ts", "./shim"),
        ("src/a.ts", "types/global.d.ts", "../types/global"),
        ("src/a.ts", "src/b.mts", "./b.mts"),
        ("src/a.ts", "data/config.json", "../data/config.json"),
    ];
    for (i, t, want) in cases {
        assert_eq!(relative_specifier(i, t), want, "{i} -> {t}");
    }
}

#[test]
fn normalizes_dots_and_parent_dirs() {
    assert_eq!(normalize_rel_path("./src/../utils/foo.ts").as_deref(), Some("utils/foo.ts"));
    assert_eq!(normalize_rel_path("a/b/c/../../d.ts").as_deref(), Some("a/d.ts"));
}

#[test]
fn rejects_escaping_and_empty_paths() {
    assert_eq!(normalize_rel_path("../outside"), None);
    assert_eq!(normalize_rel_path("a/../../outside"), None);
    assert_eq!(normalize_rel_path(""), None);
    assert_eq!(normalize_rel_path("./"), None);
}

#[test]
fn rejects_absolute_paths() {
    assert_eq!(normalize_rel_path("/etc/passwd"), None);
}

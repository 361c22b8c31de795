//! The shapes of every `--json` response: an envelope whose `status` is
//! `"ok"`, `"dry_run"` or `"error"`, with the command's payload beside it,
//! and a stable error `code` plus an actionable `hint` on failure.

use vstd::prelude::*;

use crate::cli::output::ChangedFile;
use crate::engine::apply::fsops::{group_by_file, grouped};
use crate::engine::plan::{rewrite_views, FileMove, MovePlan};
use crate::engine::refs::NonImportRef;
use crate::engine::{error_detail, error_label, rel_str, JmoveError};
use crate::order::{lemma_map_push, lemma_map_take_push, texts};
use crate::path::rel_text;

verus! {

/// Top-level envelope of every `--json` response.
pub struct Envelope<T> {
    /// One of `"ok"`, `"dry_run"`, `"error"`.
    pub status: &'static str,
    /// The operation that produced the response, e.g. `"mv"`, `"check"`.
    pub operation: &'static str,
    /// Command-specific payload.
    pub data: T,
}

impl<T> Envelope<T> {
    /// Success envelope: `status = "ok"`.
    pub fn ok(operation: &'static str, data: T) -> (r: Self)
        ensures
            r.status@ == "ok"@,
            r.operation == operation,
            r.data == data,
    {
        Envelope { status: "ok", operation, data }
    }

    /// Dry-run preview envelope: `status = "dry_run"`.
    pub fn dry_run(operation: &'static str, data: T) -> (r: Self)
        ensures
            r.status@ == "dry_run"@,
            r.operation == operation,
            r.data == data,
    {
        Envelope { status: "dry_run", operation, data }
    }
}

impl Envelope<ErrorData> {
    /// Failure envelope: `status = "error"`.
    pub fn error(operation: &'static str, data: ErrorData) -> (r: Self)
        ensures
            r.status@ == "error"@,
            r.operation == operation,
            r.data == data,
    {
        Envelope { status: "error", operation, data }
    }
}

/// Error payload: stable `code`, human `message`, actionable `hint`.
pub struct ErrorData {
    /// Machine-readable code, e.g. `TARGET_EXISTS`, `SOURCE_NOT_FOUND`.
    pub code: String,
    /// Human-readable explanation.
    pub message: String,
    /// What the caller should do next (absent when there is no advice).
    pub hint: Option<String>,
}

/// `r` is the error `expected` describes (code, message, hint), or no
/// error when nothing is expected.
pub open spec fn error_matches(r: Option<ErrorData>, expected: Option<(Seq<char>, Seq<char>, Seq<char>)>) -> bool {
    match expected {
        None => r is None,
        Some((code, message, hint)) => match r {
            Some(e) => e.code@ == code && e.message@ == message && match e.hint {
                Some(h) => h@ == hint,
                None => false,
            },
            None => false,
        },
    }
}

/// The stable code each engine error kind is reported under.
pub open spec fn error_code(e: JmoveError) -> Seq<char> {
    match e {
        JmoveError::Io(_) => "IO_ERROR"@,
        JmoveError::InvalidArgument(_) => "INVALID_ARGUMENT"@,
        JmoveError::StaleIndex(_) => "STALE_INDEX"@,
        JmoveError::PlanRejected(_) => "PLAN_REJECTED"@,
        JmoveError::Git(_) => "GIT_ERROR"@,
    }
}

/// The advice each engine error kind comes with.
pub open spec fn error_hint(e: JmoveError) -> Seq<char> {
    match e {
        JmoveError::Io(_) => "check file permissions and disk space"@,
        JmoveError::InvalidArgument(_) => "paths must be inside the project root given by --root"@,
        JmoveError::StaleIndex(_) => "rerun the command; the index is rebuilt on every run"@,
        JmoveError::PlanRejected(_) => "run `jmove check --json` to inspect the import graph"@,
        JmoveError::Git(_) => "retry with --no-git to move without touching git"@,
    }
}

impl ErrorData {
    /// An error payload from a stable code, message and optional hint.
    pub fn new(code: &str, message: String, hint: Option<String>) -> (r: Self)
        ensures
            r.code@ == code@,
            r.message == message,
            r.hint == hint,
    {
        ErrorData { code: String::from_str(code), message, hint }
    }

    /// An engine error as a stable code, its rendered message and the
    /// advice for its kind.
    pub fn from_core(err: &JmoveError) -> (r: Self)
        ensures
            r.code@ == error_code(*err),
            r.message@ == error_label(*err) + error_detail(*err),
            r.hint matches Some(h) && h@ == error_hint(*err),
    {
        let (code, hint) = match err {
            JmoveError::Io(_) => ("IO_ERROR", "check file permissions and disk space"),
            JmoveError::InvalidArgument(_) => ("INVALID_ARGUMENT", "paths must be inside the project root given by --root"),
            JmoveError::StaleIndex(_) => ("STALE_INDEX", "rerun the command; the index is rebuilt on every run"),
            JmoveError::PlanRejected(_) => ("PLAN_REJECTED", "run `jmove check --json` to inspect the import graph"),
            JmoveError::Git(_) => ("GIT_ERROR", "retry with --no-git to move without touching git"),
        };
        Self::new(code, err.to_string(), Some(String::from_str(hint)))
    }
}

/// One `(from, to)` relocation of a directory move.
pub struct FileMoveData {
    /// Project-relative path moved away.
    pub from: String,
    /// Project-relative destination path.
    pub to: String,
}

/// The views of relocation entries: from, to.
pub open spec fn move_data_views(s: Seq<FileMoveData>) -> Seq<(Seq<char>, Seq<char>)> {
    s.map_values(|m: FileMoveData| (m.from@, m.to@))
}

/// The relocation entries of a plan's moves.
pub open spec fn move_entries(moves: Seq<FileMove>) -> Seq<(Seq<char>, Seq<char>)> {
    moves.map_values(|m: FileMove| (rel_text(m.source@), rel_text(m.target@)))
}

/// The relocation list of a payload: every move when the plan moved more
/// than one file, none otherwise.
pub open spec fn dir_moves_spec(moves: Seq<FileMove>) -> Seq<(Seq<char>, Seq<char>)> {
    if moves.len() > 1 {
        move_entries(moves)
    } else {
        Seq::empty()
    }
}

impl FileMoveData {
    fn from(m: &FileMove) -> (r: Self)
        ensures
            r.from@ == rel_text(m.source@),
            r.to@ == rel_text(m.target@),
    {
        FileMoveData { from: rel_str(m.source.as_str()), to: rel_str(m.target.as_str()) }
    }
}

fn dir_moves(plan: &MovePlan) -> (r: Vec<FileMoveData>)
    ensures
        move_data_views(r@) == dir_moves_spec(plan.moves@),
{
    let mut out: Vec<FileMoveData> = Vec::new();
    if plan.moves.len() > 1 {
        let mut i: usize = 0;
        while i < plan.moves.len()
            invariant
                i <= plan.moves@.len(),
                move_data_views(out@) == move_entries(plan.moves@).take(i as int),
            decreases plan.moves.len() - i,
        {
            let m = FileMoveData::from(&plan.moves[i]);
            proof {
                lemma_map_push(out@, m, |m: FileMoveData| (m.from@, m.to@));
                lemma_map_take_push(plan.moves@, i as int, |m: FileMove| (rel_text(m.source@), rel_text(m.target@)));
            }
            out.push(m);
            i += 1;
        }
        assert(move_entries(plan.moves@).take(plan.moves@.len() as int) =~= move_entries(plan.moves@));
    } else {
        assert(move_data_views(out@) =~= dir_moves_spec(plan.moves@));
    }
    out
}

/// The project-relative rendering of every path of a list.
pub open spec fn rel_texts(s: Seq<String>) -> Seq<Seq<char>> {
    s.map_values(|p: String| rel_text(p@))
}

fn rel_all(paths: &Vec<String>) -> (r: Vec<String>)
    ensures
        texts(r@) == rel_texts(paths@),
{
    let mut out: Vec<String> = Vec::new();
    let mut i: usize = 0;
    while i < paths.len()
        invariant
            i <= paths@.len(),
            texts(out@) == rel_texts(paths@).take(i as int),
        decreases paths.len() - i,
    {
        let t = rel_str(paths[i].as_str());
        proof {
            lemma_map_push(out@, t, |s: String| s@);
            lemma_map_take_push(paths@, i as int, |p: String| rel_text(p@));
        }
        out.push(t);
        i += 1;
    }
    assert(rel_texts(paths@).take(paths@.len() as int) =~= rel_texts(paths@));
    out
}

/// The rename backend's name: `"git"` or `"fs"`.
pub open spec fn backend_name(via_git: bool) -> Seq<char> {
    if via_git {
        "git"@
    } else {
        "fs"@
    }
}

/// Success payload of `mv --json`.
pub struct MvData {
    /// Project-relative path the file moved from.
    pub source: String,
    /// Project-relative path the file moved to.
    pub target: String,
    /// Importer files touched by the move.
    pub changed_files: Vec<ChangedFile>,
    /// Number of files physically moved (1 for a file move, N for a dir).
    pub moved: usize,
    /// Total specifiers rewritten across all importers.
    pub updated_imports: usize,
    /// Rename backend: `"git"` (every rename staged) or `"fs"`.
    pub moved_via: &'static str,
    /// Non-import textual references left unfixed.
    pub non_import_refs: Vec<NonImportRef>,
    /// Directory moves only: each `(from, to)` relocation.
    pub moved_files: Vec<FileMoveData>,
    /// Directory moves only: unindexable files staying in place.
    pub left_behind: Vec<String>,
}

impl MvData {
    /// The payload of an applied plan and its change details.
    pub fn new(plan: &MovePlan, changed_files: Vec<ChangedFile>, via_git: bool, non_import_refs: Vec<NonImportRef>) -> (r: Self)
        ensures
            r.source@ == rel_text(plan.source@),
            r.target@ == rel_text(plan.target@),
            r.changed_files == changed_files,
            r.moved == plan.moves@.len(),
            r.updated_imports == plan.rewrites@.len(),
            r.moved_via@ == backend_name(via_git),
            r.non_import_refs == non_import_refs,
            move_data_views(r.moved_files@) == dir_moves_spec(plan.moves@),
            texts(r.left_behind@) == rel_texts(plan.left_behind@),
    {
        MvData {
            source: rel_str(plan.source.as_str()),
            target: rel_str(plan.target.as_str()),
            changed_files,
            moved: plan.moves.len(),
            updated_imports: plan.rewrites.len(),
            moved_via: if via_git {
                "git"
            } else {
                "fs"
            },
            non_import_refs,
            moved_files: dir_moves(plan),
            left_behind: rel_all(&plan.left_behind),
        }
    }
}

/// Dry-run payload of `mv --dry-run --json`.
pub struct MvDryRunData {
    /// Project-relative path that would move.
    pub would_move: String,
    /// Project-relative destination that would be created.
    pub target: String,
    /// Specifiers that would be rewritten.
    pub would_update: usize,
    /// Importer files that would be touched, in path order.
    pub affected_files: Vec<String>,
    /// Unified diff (rewrites and renames) of the whole plan.
    pub diff: String,
    /// Rename backend a real run would use: `"git"` or `"fs"`.
    pub would_move_via: &'static str,
    /// Non-import references a real run would leave unfixed.
    pub non_import_refs: Vec<NonImportRef>,
    /// Directory moves only: every relocation that would happen.
    pub would_move_files: Vec<FileMoveData>,
}

impl MvDryRunData {
    /// The preview payload of a plan and its rendered diff; the affected
    /// files are the plan's rewrites grouped per importer.
    pub fn new(plan: &MovePlan, diff: String, via_git: bool, non_import_refs: Vec<NonImportRef>) -> (r: Self)
        ensures
            r.would_move@ == rel_text(plan.source@),
            r.target@ == rel_text(plan.target@),
            r.would_update == plan.rewrites@.len(),
            exists|groups: Seq<(String, Vec<crate::engine::Edit>)>| {
                &&& grouped(rewrite_views(plan.rewrites@), groups)
                &&& texts(r.affected_files@) == groups.map_values(|g: (String, Vec<crate::engine::Edit>)| rel_text(g.0@))
            },
            r.diff == diff,
            r.would_move_via@ == backend_name(via_git),
            r.non_import_refs == non_import_refs,
            move_data_views(r.would_move_files@) == dir_moves_spec(plan.moves@),
    {
        let groups = group_by_file(plan);
        let mut affected: Vec<String> = Vec::new();
        let mut i: usize = 0;
        while i < groups.len()
            invariant
                i <= groups@.len(),
                texts(affected@) == groups@.map_values(|g: (String, Vec<crate::engine::Edit>)| rel_text(g.0@)).take(i as int),
            decreases groups.len() - i,
        {
            let t = rel_str(groups[i].0.as_str());
            proof {
                lemma_map_push(affected@, t, |s: String| s@);
                lemma_map_take_push(groups@, i as int, |g: (String, Vec<crate::engine::Edit>)| rel_text(g.0@));
            }
            affected.push(t);
            i += 1;
        }
        assert(groups@.map_values(|g: (String, Vec<crate::engine::Edit>)| rel_text(g.0@)).take(groups@.len() as int)
            =~= groups@.map_values(|g: (String, Vec<crate::engine::Edit>)| rel_text(g.0@)));
        MvDryRunData {
            would_move: rel_str(plan.source.as_str()),
            target: rel_str(plan.target.as_str()),
            would_update: plan.rewrites.len(),
            affected_files: affected,
            diff,
            would_move_via: if via_git {
                "git"
            } else {
                "fs"
            },
            non_import_refs,
            would_move_files: dir_moves(plan),
        }
    }
}

} // verus!

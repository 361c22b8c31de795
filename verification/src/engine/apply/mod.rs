//! The apply engine: patching file bytes, unified-diff rendering for dry
//! runs, git integration, and the rollback bookkeeping of an apply run.
//!
//! A run writes every rewritten file first (each atomically via temp file
//! + rename), then performs the moves (through `git mv` for indexed
//! files, see [`GitMode`]), then prunes emptied directories. The caller
//! performs the file-system work; [`Run`] decides what to write and how to
//! undo it when a step fails.

pub mod diff;
pub mod fsops;
pub mod git;

pub use diff::{render_diff, render_edits_diff};
pub use git::{would_use_git, GitMode};

use vstd::prelude::*;

use crate::engine::{error_detail, error_label, Edit, JmoveError, JmoveResult};
use crate::text::push_str;
use crate::engine::plan::{rewrite_views, MovePlan};
use fsops::{edit_views, group_by_file, grouped, rewrite_bytes, rewrite_outcome};

verus! {

/// Summary of a successfully applied plan.
pub struct Applied {
    /// Number of files whose imports were rewritten.
    pub files_rewritten: usize,
    /// The moved file's new project-relative path (directory moves: the
    /// requested destination).
    pub new_path: String,
    /// Whether every physical rename went through `git mv`.
    pub via_git: bool,
}

/// Rollback state of one run: originals of rewritten files (newest last),
/// directories created for the targets, and the renames once they
/// happened (oldest first).
pub struct Run {
    root: String,
    backups: Vec<(String, Vec<u8>)>,
    dirs: Vec<String>,
    moved: Vec<(String, String, bool)>,
}

/// One step of undoing a run, in the order to perform it.
pub enum UndoStep {
    /// Move `from` back to `to` (through git when the move went through git).
    MoveBack { from: String, to: String, via_git: bool },
    /// Write the original `bytes` back to `file`.
    Restore { file: String, bytes: Vec<u8> },
    /// Remove the directory created for a target (only if empty).
    RemoveDir { dir: String },
}

impl Run {
    /// The project root the run works under.
    pub closed spec fn root_view(&self) -> Seq<char> {
        self.root@
    }

    /// The project root the run works under.
    pub fn root(&self) -> (r: &str)
        ensures
            r@ == self.root_view(),
    {
        self.root.as_str()
    }

    /// The backups taken so far, oldest first.
    pub closed spec fn backups_view(&self) -> Seq<(Seq<char>, Seq<u8>)> {
        self.backups@.map_values(|b: (String, Vec<u8>)| (b.0@, b.1@))
    }

    /// The directories created so far, in creation order.
    pub closed spec fn dirs_view(&self) -> Seq<Seq<char>> {
        self.dirs@.map_values(|d: String| d@)
    }

    /// The renames performed so far, oldest first.
    pub closed spec fn moved_view(&self) -> Seq<(Seq<char>, Seq<char>, bool)> {
        self.moved@.map_values(|m: (String, String, bool)| (m.0@, m.1@, m.2))
    }

    /// A fresh run under `root`.
    pub fn new(root: String) -> (r: Self)
        ensures
            r.root_view() == root@,
            r.backups_view() == Seq::<(Seq<char>, Seq<u8>)>::empty(),
            r.dirs_view() == Seq::<Seq<char>>::empty(),
            r.moved_view() == Seq::<(Seq<char>, Seq<char>, bool)>::empty(),
    {
        let r = Run { root, backups: Vec::new(), dirs: Vec::new(), moved: Vec::new() };
        assert(r.backups_view() =~= Seq::<(Seq<char>, Seq<u8>)>::empty());
        assert(r.dirs_view() =~= Seq::<Seq<char>>::empty());
        assert(r.moved_view() =~= Seq::<(Seq<char>, Seq<char>, bool)>::empty());
        r
    }

    /// Patch one file in memory: the bytes to write over `file`. On
    /// success the original bytes are kept for rollback.
    pub fn rewrite_one(&mut self, file: &str, original: Vec<u8>, edits: &[Edit]) -> (r: JmoveResult<Vec<u8>>)
        ensures
            rewrite_outcome(file@, original@, edit_views(edits@), r),
            final(self).root_view() == old(self).root_view(),
            final(self).dirs_view() == old(self).dirs_view(),
            final(self).moved_view() == old(self).moved_view(),
            final(self).backups_view() == if r is Ok {
                old(self).backups_view().push((file@, original@))
            } else {
                old(self).backups_view()
            },
    {
        let patched = rewrite_bytes(file, original.as_slice(), edits);
        if patched.is_ok() {
            let ghost before = self.backups@;
            self.backups.push((String::from_str(file), original));
            assert(self.backups_view() =~= before.map_values(|b: (String, Vec<u8>)| (b.0@, b.1@)).push((file@, self.backups@.last().1@)));
        }
        patched
    }

    /// Record the directories created for a move target (outermost first).
    pub fn record_dirs(&mut self, created: Vec<String>)
        ensures
            final(self).root_view() == old(self).root_view(),
            final(self).backups_view() == old(self).backups_view(),
            final(self).moved_view() == old(self).moved_view(),
            final(self).dirs_view() == old(self).dirs_view() + created@.map_values(|d: String| d@),
    {
        let mut i: usize = 0;
        let ghost start = self.dirs_view();
        while i < created.len()
            invariant
                i <= created@.len(),
                self.root_view() == old(self).root_view(),
                self.backups_view() == old(self).backups_view(),
                self.moved_view() == old(self).moved_view(),
                self.dirs_view() == start + created@.map_values(|d: String| d@).take(i as int),
                start == old(self).dirs_view(),
            decreases created.len() - i,
        {
            let ghost before = self.dirs@;
            self.dirs.push(created[i].clone());
            assert(self.dirs_view() =~= before.map_values(|d: String| d@).push(created@[i as int]@));
            i += 1;
            assert(start + created@.map_values(|d: String| d@).take(i as int)
                =~= start + created@.map_values(|d: String| d@).take(i - 1).push(created@[i - 1]@));
        }
        assert(created@.map_values(|d: String| d@).take(created@.len() as int) =~= created@.map_values(|d: String| d@));
    }

    /// Record a performed rename.
    pub fn record_move(&mut self, source: String, target: String, via_git: bool)
        ensures
            final(self).root_view() == old(self).root_view(),
            final(self).backups_view() == old(self).backups_view(),
            final(self).dirs_view() == old(self).dirs_view(),
            final(self).moved_view() == old(self).moved_view().push((source@, target@, via_git)),
    {
        let ghost before = self.moved@;
        self.moved.push((source, target, via_git));
        assert(self.moved_view() =~= before.map_values(|m: (String, String, bool)| (m.0@, m.1@, m.2)).push(
            (self.moved@.last().0@, self.moved@.last().1@, via_git),
        ));
    }

    /// Every rename so far went through git (and there was at least one).
    pub fn via_git(&self) -> (r: bool)
        ensures
            r == (self.moved_view().len() > 0 && forall|i: int| 0 <= i < self.moved_view().len() ==> self.moved_view()[i].2),
    {
        if self.moved.len() == 0 {
            return false;
        }
        let mut i: usize = 0;
        while i < self.moved.len()
            invariant
                i <= self.moved@.len(),
                forall|j: int| 0 <= j < i ==> self.moved_view()[j].2,
            decreases self.moved.len() - i,
        {
            assert(self.moved_view()[i as int].2 == self.moved@[i as int].2);
            if !self.moved[i].2 {
                return false;
            }
            i += 1;
        }
        true
    }

    /// The summary of a completed run over `files_rewritten` files moving
    /// to `new_path`.
    pub fn applied(&self, files_rewritten: usize, new_path: String) -> (r: Applied)
        ensures
            r.files_rewritten == files_rewritten,
            r.new_path@ == new_path@,
            r.via_git == (self.moved_view().len() > 0 && forall|i: int| 0 <= i < self.moved_view().len() ==> self.moved_view()[i].2),
    {
        Applied { files_rewritten, new_path, via_git: self.via_git() }
    }

    /// How to undo everything done so far, newest first: renames back,
    /// then the original bytes of rewritten files, then the created
    /// directories. Empties the run.
    pub fn undo_steps(&mut self) -> (r: Vec<UndoStep>)
        ensures
            r@.len() == old(self).moved_view().len() + old(self).backups_view().len() + old(self).dirs_view().len(),
            forall|i: int| #![trigger r@[i]] 0 <= i < old(self).moved_view().len() ==> {
                let m = old(self).moved_view()[old(self).moved_view().len() - 1 - i];
                r@[i] matches UndoStep::MoveBack { from, to, via_git } && from@ == m.1 && to@ == m.0 && via_git == m.2
            },
            forall|j: int| #![trigger r@[j]]
                old(self).moved_view().len() <= j < old(self).moved_view().len() + old(self).backups_view().len() ==> {
                let b = old(self).backups_view()[old(self).moved_view().len() + old(self).backups_view().len() - 1 - j];
                r@[j] matches UndoStep::Restore { file, bytes } && file@ == b.0 && bytes@ == b.1
            },
            forall|j: int| #![trigger r@[j]]
                old(self).moved_view().len() + old(self).backups_view().len() <= j < r@.len() ==> {
                let d = old(self).dirs_view()[r@.len() - 1 - j];
                r@[j] matches UndoStep::RemoveDir { dir } && dir@ == d
            },
            final(self).root_view() == old(self).root_view(),
            final(self).moved_view().len() == 0,
            final(self).backups_view().len() == 0,
            final(self).dirs_view().len() == 0,
    {
        let ghost mv = self.moved_view();
        let ghost bv = self.backups_view();
        let ghost dv = self.dirs_view();
        let mut r: Vec<UndoStep> = Vec::new();
        while self.moved.len() > 0
            invariant
                self.moved_view() == mv.take(self.moved_view().len() as int),
                self.moved_view().len() <= mv.len(),
                r@.len() == mv.len() - self.moved_view().len(),
                forall|i: int| #![trigger r@[i]] 0 <= i < r@.len() ==> {
                    let m = mv[mv.len() - 1 - i];
                    r@[i] matches UndoStep::MoveBack { from, to, via_git } && from@ == m.1 && to@ == m.0 && via_git == m.2
                },
                self.backups_view() == bv,
                self.dirs_view() == dv,
                self.root_view() == old(self).root_view(),
            decreases self.moved@.len(),
        {
            let ghost before = self.moved@;
            let (src, dst, git) = self.moved.pop().unwrap();
            assert(self.moved_view() =~= mv.take(self.moved_view().len() as int));
            assert(before.map_values(|m: (String, String, bool)| (m.0@, m.1@, m.2)).last() == (src@, dst@, git));
            r.push(UndoStep::MoveBack { from: dst, to: src, via_git: git });
        }
        let ghost k1 = r@.len();
        while self.backups.len() > 0
            invariant
                k1 == mv.len(),
                self.backups_view() == bv.take(self.backups_view().len() as int),
                self.backups_view().len() <= bv.len(),
                r@.len() == k1 + bv.len() - self.backups_view().len(),
                forall|i: int| #![trigger r@[i]] 0 <= i < mv.len() ==> {
                    let m = mv[mv.len() - 1 - i];
                    r@[i] matches UndoStep::MoveBack { from, to, via_git } && from@ == m.1 && to@ == m.0 && via_git == m.2
                },
                forall|j: int| #![trigger r@[j]] k1 <= j < r@.len() ==> {
                    let b = bv[k1 + bv.len() - 1 - j];
                    r@[j] matches UndoStep::Restore { file, bytes } && file@ == b.0 && bytes@ == b.1
                },
                self.moved_view().len() == 0,
                self.dirs_view() == dv,
                self.root_view() == old(self).root_view(),
            decreases self.backups@.len(),
        {
            let ghost before = self.backups@;
            let (file, bytes) = self.backups.pop().unwrap();
            assert(self.backups_view() =~= bv.take(self.backups_view().len() as int));
            assert(before.map_values(|b: (String, Vec<u8>)| (b.0@, b.1@)).last() == (file@, bytes@));
            r.push(UndoStep::Restore { file, bytes });
        }
        let ghost k2 = r@.len();
        while self.dirs.len() > 0
            invariant
                k1 == mv.len(),
                k2 == mv.len() + bv.len(),
                self.dirs_view() == dv.take(self.dirs_view().len() as int),
                self.dirs_view().len() <= dv.len(),
                r@.len() == k2 + dv.len() - self.dirs_view().len(),
                forall|i: int| #![trigger r@[i]] 0 <= i < mv.len() ==> {
                    let m = mv[mv.len() - 1 - i];
                    r@[i] matches UndoStep::MoveBack { from, to, via_git } && from@ == m.1 && to@ == m.0 && via_git == m.2
                },
                forall|j: int| #![trigger r@[j]] k1 <= j < k2 ==> {
                    let b = bv[k1 + bv.len() - 1 - j];
                    r@[j] matches UndoStep::Restore { file, bytes } && file@ == b.0 && bytes@ == b.1
                },
                forall|j: int| #![trigger r@[j]] k2 <= j < r@.len() ==> {
                    let d = dv[k2 + dv.len() - 1 - j];
                    r@[j] matches UndoStep::RemoveDir { dir } && dir@ == d
                },
                self.moved_view().len() == 0,
                self.backups_view().len() == 0,
                self.root_view() == old(self).root_view(),
            decreases self.dirs@.len(),
        {
            let ghost before = self.dirs@;
            let dir = self.dirs.pop().unwrap();
            assert(self.dirs_view() =~= dv.take(self.dirs_view().len() as int));
            assert(before.map_values(|d: String| d@).last() == dir@);
            r.push(UndoStep::RemoveDir { dir });
        }
        r
    }
}

/// The error an undo reports: the original error when every step went
/// through, else the original error's text with the rollback problems
/// appended (joined by `; `).
pub fn rollback_error(err: JmoveError, problems: &Vec<String>) -> (r: JmoveError)
    ensures
        problems@.len() == 0 ==> r == err,
        problems@.len() > 0 ==> (r matches JmoveError::Io(m) && m@ == error_label(err) + error_detail(err)
            + "; rollback incomplete: "@ + crate::path::join(crate::order::texts(problems@), "; "@)),
{
    if problems.len() == 0 {
        return err;
    }
    let mut m = err.to_string();
    push_str(&mut m, "; rollback incomplete: ");
    let mut i: usize = 0;
    let mut parts: Vec<Vec<char>> = Vec::new();
    while i < problems.len()
        invariant
            i <= problems@.len(),
            crate::path::views(parts@) == crate::order::texts(problems@).take(i as int),
        decreases problems.len() - i,
    {
        let ghost before = parts@;
        parts.push(crate::text::chars_of(problems[i].as_str()));
        assert(crate::path::views(parts@) =~= crate::path::views(before).push(problems@[i as int]@));
        assert(crate::order::texts(problems@).take(i + 1) =~= crate::order::texts(problems@).take(i as int).push(problems@[i as int]@));
        i += 1;
        assert(crate::path::views(parts@) =~= crate::order::texts(problems@).take(i as int));
    }
    assert(crate::order::texts(problems@).take(problems@.len() as int) =~= crate::order::texts(problems@));
    let sep = crate::text::chars_of("; ");
    proof {
        reveal_strlit("; ");
    }
    let joined = crate::path::join_chars(parts.as_slice(), sep.as_slice());
    push_str(&mut m, crate::text::string_of(joined.as_slice()).as_str());
    JmoveError::Io(m)
}

/// One step of writing a plan to disk.
pub enum Step {
    /// Patch `file` with `edits` (atomically, keeping the original for
    /// rollback).
    Rewrite { file: String, edits: Vec<Edit> },
    /// Rename `source` to `target` (through `git mv` where git tracks it),
    /// creating the missing directories of `target` first.
    Move { source: String, target: String },
    /// Remove the directory if it is empty (never fails the run).
    PruneDir { dir: String },
}

fn copy_edits(v: &Vec<Edit>) -> (r: Vec<Edit>)
    ensures
        edit_views(r@) == edit_views(v@),
{
    let mut out: Vec<Edit> = Vec::new();
    let mut i: usize = 0;
    while i < v.len()
        invariant
            i <= v@.len(),
            edit_views(out@) == edit_views(v@).take(i as int),
        decreases v.len() - i,
    {
        let e = v[i].clone();
        proof {
            crate::order::lemma_map_push(out@, e, |e: Edit| e.view_of());
            crate::order::lemma_map_take_push(v@, i as int, |e: Edit| e.view_of());
        }
        out.push(e);
        i += 1;
    }
    assert(edit_views(v@).take(v@.len() as int) =~= edit_views(v@));
    out
}

/// Every importer of the plan is rewritten (files in path order, each
/// file's edits in rewrite order) before anything moves; then each move
/// happens in plan order; pruning the emptied source directories comes
/// last, when nothing can fail any more.
pub open spec fn apply_steps_ok(plan: MovePlan, groups: Seq<(String, Vec<Edit>)>, r: Seq<Step>) -> bool {
    let g = groups.len();
    let m = plan.moves@.len();
    &&& grouped(rewrite_views(plan.rewrites@), groups)
    &&& r.len() == g + m + plan.prune_dirs@.len()
    &&& forall|i: int| 0 <= i < g ==> (#[trigger] r[i] matches Step::Rewrite { file, edits } && file@ == groups[i].0@
        && edit_views(edits@) == edit_views(groups[i].1@))
    &&& forall|j: int| 0 <= j < m ==> (#[trigger] r[g + j] matches Step::Move { source, target } && source@
        == plan.moves@[j].source@ && target@ == plan.moves@[j].target@)
    &&& forall|k: int| 0 <= k < plan.prune_dirs@.len() ==> (#[trigger] r[g + m + k] matches Step::PruneDir { dir } && dir@
        == plan.prune_dirs@[k]@)
}

/// The steps that write a move plan to disk, in the order that keeps a
/// failed run recoverable: importer rewrites first, the renames last (a
/// directory plan file by file), then the pruning of emptied directories.
pub fn apply(plan: &MovePlan) -> (r: Vec<Step>)
    ensures
        exists|groups: Seq<(String, Vec<Edit>)>| apply_steps_ok(*plan, groups, r@),
{
    let groups = group_by_file(plan);
    let mut out: Vec<Step> = Vec::new();
    let mut i: usize = 0;
    while i < groups.len()
        invariant
            i <= groups@.len(),
            out@.len() == i,
            forall|a: int| 0 <= a < i ==> (#[trigger] out@[a] matches Step::Rewrite { file, edits } && file@ == groups@[a].0@
                && edit_views(edits@) == edit_views(groups@[a].1@)),
        decreases groups.len() - i,
    {
        out.push(Step::Rewrite { file: groups[i].0.clone(), edits: copy_edits(&groups[i].1) });
        i += 1;
    }
    let g = groups.len();
    let mut j: usize = 0;
    while j < plan.moves.len()
        invariant
            g == groups@.len(),
            j <= plan.moves@.len(),
            out@.len() == g + j,
            forall|a: int| 0 <= a < g ==> (#[trigger] out@[a] matches Step::Rewrite { file, edits } && file@ == groups@[a].0@
                && edit_views(edits@) == edit_views(groups@[a].1@)),
            forall|b: int| 0 <= b < j ==> (#[trigger] out@[g + b] matches Step::Move { source, target } && source@
                == plan.moves@[b].source@ && target@ == plan.moves@[b].target@),
        decreases plan.moves.len() - j,
    {
        let m = &plan.moves[j];
        out.push(Step::Move { source: m.source.clone(), target: m.target.clone() });
        assert(out@[g + j as int] matches Step::Move { source, target } && source@ == plan.moves@[j as int].source@);
        j += 1;
    }
    let mv = plan.moves.len();
    let mut k: usize = 0;
    while k < plan.prune_dirs.len()
        invariant
            g == groups@.len(),
            mv == plan.moves@.len(),
            k <= plan.prune_dirs@.len(),
            out@.len() == g + mv + k,
            forall|a: int| 0 <= a < g ==> (#[trigger] out@[a] matches Step::Rewrite { file, edits } && file@ == groups@[a].0@
                && edit_views(edits@) == edit_views(groups@[a].1@)),
            forall|b: int| 0 <= b < mv ==> (#[trigger] out@[g + b] matches Step::Move { source, target } && source@
                == plan.moves@[b].source@ && target@ == plan.moves@[b].target@),
            forall|c: int| 0 <= c < k ==> (#[trigger] out@[g + mv + c] matches Step::PruneDir { dir } && dir@
                == plan.prune_dirs@[c]@),
        decreases plan.prune_dirs.len() - k,
    {
        out.push(Step::PruneDir { dir: plan.prune_dirs[k].clone() });
        assert(out@[g + mv + k as int] matches Step::PruneDir { dir } && dir@ == plan.prune_dirs@[k as int]@);
        k += 1;
    }
    assert(apply_steps_ok(*plan, groups@, out@));
    out
}

/// The steps that write edit groups without a move: one rewrite per
/// group, in order.
pub fn apply_edits(by_file: &Vec<(String, Vec<Edit>)>) -> (r: Vec<Step>)
    ensures
        r@.len() == by_file@.len(),
        forall|i: int| 0 <= i < by_file@.len() ==> (#[trigger] r@[i] matches Step::Rewrite { file, edits } && file@
            == by_file@[i].0@ && edit_views(edits@) == edit_views(by_file@[i].1@)),
{
    let mut out: Vec<Step> = Vec::new();
    let mut i: usize = 0;
    while i < by_file.len()
        invariant
            i <= by_file@.len(),
            out@.len() == i,
            forall|a: int| 0 <= a < i ==> (#[trigger] out@[a] matches Step::Rewrite { file, edits } && file@
                == by_file@[a].0@ && edit_views(edits@) == edit_views(by_file@[a].1@)),
        decreases by_file.len() - i,
    {
        out.push(Step::Rewrite { file: by_file[i].0.clone(), edits: copy_edits(&by_file[i].1) });
        i += 1;
    }
    out
}

} // verus!

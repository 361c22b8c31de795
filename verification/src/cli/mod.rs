//! The command-line layer's logic: the commands and their options, the
//! JSON payloads, the human summaries and the report files. Argument
//! parsing, reading the project and printing happen around it.

pub mod broken;
pub mod exit;
pub mod fix;
pub mod json;
pub mod output;
pub mod report;

use vstd::prelude::*;

verus! {

/// The parsed command line.
pub struct Args {
    /// Subcommand to execute.
    pub command: Command,
    /// Project root (the current directory unless given).
    pub root: String,
    /// Index only files under this root-relative directory: the monorepo
    /// disambiguator for duplicate Java packages.
    pub source_root: Option<String>,
}

/// The subcommands.
pub enum Command {
    /// Move a file (or directory) and rewrite every import of it.
    Mv {
        /// File being moved (project-relative or inside the root).
        source: String,
        /// Destination path.
        target: String,
        /// Preview changes without touching the disk.
        dry_run: bool,
        /// Machine-readable JSON output.
        json: bool,
        /// Plain file-system rename even for git-tracked files.
        no_git: bool,
    },
    /// Report broken imports and misnamed Java files.
    Check {
        /// Machine-readable JSON output.
        json: bool,
        /// Also write the findings to this `.sarif` or `.xml` file.
        report: Option<String>,
    },
    /// Auto-fix small import problems with the same engine as `mv`.
    Fix {
        /// Run only this rule id, e.g. `java/unused-import`.
        rule: Option<String>,
        /// Preview changes without touching the disk.
        dry_run: bool,
        /// Machine-readable JSON output.
        json: bool,
        /// Also write the candidates to this `.sarif` or `.xml` file.
        report: Option<String>,
    },
}

} // verus!

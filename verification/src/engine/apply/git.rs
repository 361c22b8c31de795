//! Git integration: files in the git index are moved through `git mv` so the
//! rename lands staged in the index instead of being a plain file-system
//! rename. Running `git` is the caller's business; this module decides
//! when to use it and what its answers mean.

use vstd::prelude::*;

use crate::engine::JmoveError;
use crate::text::{chars_of, push_str, string_of};

verus! {

/// Whether a move may involve git in the physical rename.
#[derive(Debug, Clone, Copy, PartialEq, Eq, Structural)]
pub enum GitMode {
    /// `git mv` when git knows the source; plain rename otherwise.
    Auto,
    /// Never touch git (CLI `--no-git`).
    Disabled,
}

impl GitMode {
    /// CLI mapping: the `--no-git` flag switches to [`GitMode::Disabled`].
    pub fn from_no_git(no_git: bool) -> (r: Self)
        ensures
            r == (if no_git { GitMode::Disabled } else { GitMode::Auto }),
    {
        if no_git {
            GitMode::Disabled
        } else {
            GitMode::Auto
        }
    }
}

impl Default for GitMode {
    fn default() -> (r: Self)
        ensures
            r == GitMode::Auto,
    {
        GitMode::Auto
    }
}

/// A rename goes through `git mv` exactly when git is allowed and the
/// source is in the git index.
pub fn would_use_git(mode: GitMode, in_index: bool) -> (r: bool)
    ensures
        r == (mode == GitMode::Auto && in_index),
{
    match mode {
        GitMode::Auto => in_index,
        GitMode::Disabled => false,
    }
}

/// White space as `char::is_whitespace` defines it (Unicode White_Space).
pub open spec fn is_white(c: char) -> bool {
    ||| c == ' ' || c == '\t' || c == '\n' || c == '\r' || c == '\x0B' || c == '\x0C'
    ||| c == '\u{85}' || c == '\u{A0}' || c == '\u{1680}'
    ||| ('\u{2000}' <= c && c <= '\u{200A}')
    ||| c == '\u{2028}' || c == '\u{2029}' || c == '\u{202F}' || c == '\u{205F}' || c == '\u{3000}'
}

fn white(c: char) -> (r: bool)
    ensures
        r == is_white(c),
{
    c == ' ' || c == '\t' || c == '\n' || c == '\r' || c == '\x0B' || c == '\x0C' || c == '\u{85}' || c == '\u{A0}'
        || c == '\u{1680}' || ('\u{2000}' <= c && c <= '\u{200A}') || c == '\u{2028}' || c == '\u{2029}'
        || c == '\u{202F}' || c == '\u{205F}' || c == '\u{3000}'
}

/// Index of the first non-white character at or after `i`.
pub open spec fn first_non_white(s: Seq<char>, i: int) -> int
    decreases s.len() - i,
{
    if i >= s.len() {
        s.len() as int
    } else if !is_white(s[i]) {
        i
    } else {
        first_non_white(s, i + 1)
    }
}

/// One past the last non-white character before `j`.
pub open spec fn last_non_white(s: Seq<char>, j: int) -> int
    decreases j,
{
    if j <= 0 {
        0
    } else if !is_white(s[j - 1]) {
        j
    } else {
        last_non_white(s, j - 1)
    }
}

/// `str::trim`: `s` without leading and trailing white space.
pub open spec fn trimmed(s: Seq<char>) -> Seq<char> {
    let a = first_non_white(s, 0);
    let b = last_non_white(s, s.len() as int);
    if a < b { s.subrange(a, b) } else { Seq::empty() }
}

/// `str::trim`.
pub fn trim(s: &str) -> (r: String)
    ensures
        r@ == trimmed(s@),
{
    let cs = chars_of(s);
    let mut a: usize = 0;
    while a < cs.len() && white(cs[a])
        invariant
            a <= cs@.len(),
            cs@ == s@,
            first_non_white(s@, 0) == first_non_white(s@, a as int),
        decreases cs.len() - a,
    {
        a += 1;
    }
    let mut b: usize = cs.len();
    while b > 0 && white(cs[b - 1])
        invariant
            b <= cs@.len(),
            cs@ == s@,
            last_non_white(s@, s@.len() as int) == last_non_white(s@, b as int),
        decreases b,
    {
        b -= 1;
    }
    if a < b {
        string_of(crate::text::chars_slice(cs.as_slice(), a, b).as_slice())
    } else {
        String::new()
    }
}

/// `git ls-files -- <file>` printed something (other than white space)
/// for a file in the index; a failed run (`None`) means "not in the index".
pub fn in_index_from_output(output: Option<&str>) -> (r: bool)
    ensures
        r == (output matches Some(o) && trimmed(o@).len() > 0),
{
    match output {
        Some(o) => {
            let t = trim(o);
            t.as_str().is_empty() == false
        },
        None => false,
    }
}

/// The error a failed `git <subcommand>` reports, with its trimmed
/// standard error.
pub fn git_failure(subcommand: &str, stderr: &str) -> (r: JmoveError)
    ensures
        r matches JmoveError::Git(m) && m@ == "`git "@ + subcommand@ + "` failed: "@ + trimmed(stderr@),
{
    let mut m = String::from_str("`git ");
    push_str(&mut m, subcommand);
    push_str(&mut m, "` failed: ");
    push_str(&mut m, trim(stderr).as_str());
    JmoveError::Git(m)
}

} // verus!

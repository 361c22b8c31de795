# jmove

Move TypeScript/JavaScript and Java source files (or whole directories)
and keep every import intact; check a project for unresolvable relative
imports and misnamed Java files; auto-fix small import problems (unused,
missing and misordered Java imports, unused TS imports).

## Layout

- `src/` — the library, written in Verus and verified:
  - `text`, `path`, `order`, `map`, `json`: text and path algebra,
    orders and a stable sort, a text-keyed map, JSON access.
  - `parser`: language detection, import extraction over tree-sitter
    syntax trees, TS module resolution, Java class index, the fix rules.
  - `engine`: the project index, move planning (files, directories, Java
    packages), fix planning with overlap resolution, the byte-level edit
    engine, diffs, git decisions, non-import reference scanning.
  - `cli`: the commands' options, JSON payloads, terminal summaries and
    Checkstyle/SARIF report parts.
- `app/` — the `jmove` binary: argument parsing, walking and reading the
  project, git and file-system writes with rollback, printing.
- `tests/` — the test suite.

The public proof functions named `law_*` state the properties the tool
rests on, among them: a rewritten specifier resolves back to the moved
file, edits change only their spans, accepted fixes never overlap,
normalized paths are stable, and escaped report attributes hold no
markup.

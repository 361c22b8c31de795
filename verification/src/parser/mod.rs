//! Language frontends: import extraction, module specifier resolution and
//! the deterministic fix rules.
//!
//! - A frontend parses one source file into [`ImportRecord`]s: every
//!   static-ish module reference (TS `import`/`export from`/`require`/
//!   dynamic `import()`; Java single-type and static-member `import`s —
//!   on-demand `pkg.*` imports are deliberately not extracted).
//! - Java files additionally expose their [`PackageDecl`].
//! - Rewrites touch only the specifier string, which is why
//!   [`ImportRecord::span`] is a byte range into the original source.
//! - Fix rules propose [`FixCandidate`]s: byte edits for one file, run
//!   through the same engine as moves. Ambiguity is reported as
//!   `auto_fixable: false`, never guessed at.

use vstd::prelude::*;

use crate::engine::apply::fsops::{edit_views, EditView};
use crate::engine::index::Index;
use crate::engine::Edit;
use crate::order::texts;
use crate::path::{extension, extension_of};
use crate::text::{chars_eq, chars_of, utf8};

pub mod java;
pub mod resolve;
pub mod syntax;
pub mod ts;
pub mod words;

verus! {

/// Source languages the engine understands.
#[derive(Debug, Clone, Copy, PartialEq, Eq, Structural, Hash)]
pub enum SourceLanguage {
    /// `.ts` (non-TSX) sources.
    TypeScript,
    /// `.tsx` / `.jsx` sources.
    Tsx,
    /// Plain `.js` / `.mjs` / `.cjs` sources.
    JavaScript,
    /// `.java` sources.
    Java,
}

/// The language a lowercase extension maps to.
pub open spec fn language_of_ext(ext: Seq<char>) -> Option<SourceLanguage> {
    if ext == "ts"@ || ext == "mts"@ || ext == "cts"@ {
        Some(SourceLanguage::TypeScript)
    } else if ext == "tsx"@ || ext == "jsx"@ {
        Some(SourceLanguage::Tsx)
    } else if ext == "js"@ || ext == "mjs"@ || ext == "cjs"@ {
        Some(SourceLanguage::JavaScript)
    } else if ext == "java"@ {
        Some(SourceLanguage::Java)
    } else {
        None
    }
}

/// ASCII lowercase of one character.
pub open spec fn ascii_lower(c: char) -> char {
    if 'A' <= c <= 'Z' {
        ((c as u32) + 32) as char
    } else {
        c
    }
}

/// ASCII lowercase of a text.
pub open spec fn ascii_lowercase(s: Seq<char>) -> Seq<char> {
    s.map_values(|c: char| ascii_lower(c))
}

/// The language of a path, decided by its (lowercased) extension.
pub open spec fn language_of_path(p: Seq<char>) -> Option<SourceLanguage> {
    match extension_of(p) {
        Some(e) => language_of_ext(ascii_lowercase(e)),
        None => None,
    }
}

fn lower_char(c: char) -> (r: char)
    ensures
        r == ascii_lower(c),
{
    if 'A' <= c && c <= 'Z' {
        assert(65 <= c as u32 <= 90);
        ((c as u8) + 32) as char
    } else {
        c
    }
}

/// ASCII lowercase of a character run.
pub fn lower_chars(e: &[char]) -> (r: Vec<char>)
    ensures
        r@ == ascii_lowercase(e@),
{
    let mut low: Vec<char> = Vec::new();
    let mut i: usize = 0;
    while i < e.len()
        invariant
            i <= e@.len(),
            low@ == ascii_lowercase(e@).take(i as int),
        decreases e.len() - i,
    {
        low.push(lower_char(e[i]));
        i += 1;
        assert(low@ =~= ascii_lowercase(e@).take(i as int));
    }
    assert(low@ =~= ascii_lowercase(e@));
    low
}

impl SourceLanguage {
    /// Map a file extension (lowercase, no dot) to a language, if supported.
    pub fn from_extension(ext: &str) -> (r: Option<Self>)
        ensures
            r == language_of_ext(ext@),
    {
        let e = chars_of(ext);
        Self::from_extension_chars(e.as_slice())
    }

    fn from_extension_chars(e: &[char]) -> (r: Option<Self>)
        ensures
            r == language_of_ext(e@),
    {
        if chars_eq(e, chars_of("ts").as_slice()) || chars_eq(e, chars_of("mts").as_slice())
            || chars_eq(e, chars_of("cts").as_slice()) {
            Some(SourceLanguage::TypeScript)
        } else if chars_eq(e, chars_of("tsx").as_slice()) || chars_eq(e, chars_of("jsx").as_slice()) {
            Some(SourceLanguage::Tsx)
        } else if chars_eq(e, chars_of("js").as_slice()) || chars_eq(e, chars_of("mjs").as_slice())
            || chars_eq(e, chars_of("cjs").as_slice()) {
            Some(SourceLanguage::JavaScript)
        } else if chars_eq(e, chars_of("java").as_slice()) {
            Some(SourceLanguage::Java)
        } else {
            None
        }
    }

    /// Detect the language from a file name. `None` means "not a source
    /// file we index".
    pub fn for_path(path: &str) -> (r: Option<Self>)
        ensures
            r == language_of_path(path@),
    {
        let ext = match extension(path) {
            Some(e) => e,
            None => return None,
        };
        let mut low: Vec<char> = Vec::new();
        let mut i: usize = 0;
        while i < ext.len()
            invariant
                i <= ext@.len(),
                low@ == ascii_lowercase(ext@).take(i as int),
            decreases ext.len() - i,
        {
            low.push(lower_char(ext[i]));
            i += 1;
            assert(low@ =~= ascii_lowercase(ext@).take(i as int));
        }
        assert(low@ =~= ascii_lowercase(ext@));
        Self::from_extension_chars(low.as_slice())
    }
}

/// One module reference found in a source file.
pub struct ImportRecord {
    /// Raw specifier text as written, e.g. `"../utils/format"` (TS) or
    /// `"com.example.utils.Parser"` (Java).
    pub specifier: String,
    /// Byte range of the specifier text (inside the quotes for TS).
    pub span: std::ops::Range<usize>,
    /// `true` for dynamic `import("...")` / `require("...")` occurrences.
    pub is_dynamic: bool,
}

impl Clone for ImportRecord {
    fn clone(&self) -> (r: Self)
        ensures
            r.specifier@ == self.specifier@,
            r.span == self.span,
            r.is_dynamic == self.is_dynamic,
    {
        ImportRecord {
            specifier: self.specifier.clone(),
            span: self.span.start..self.span.end,
            is_dynamic: self.is_dynamic,
        }
    }
}

/// A record as the contracts see it: the UTF-8 bytes of the specifier,
/// span start and end, dynamic.
pub type RecordView = (Seq<u8>, int, int, bool);

/// The view of a record.
pub open spec fn record_view(r: ImportRecord) -> RecordView {
    (utf8(r.specifier@), r.span.start as int, r.span.end as int, r.is_dynamic)
}

/// The view of an optional record.
pub open spec fn record_view_opt(r: Option<ImportRecord>) -> Option<RecordView> {
    match r {
        Some(x) => Some(record_view(x)),
        None => None,
    }
}

/// The views of a record sequence.
pub open spec fn record_views(s: Seq<ImportRecord>) -> Seq<RecordView> {
    s.map_values(|r: ImportRecord| record_view(r))
}

/// The records the frontend for `lang` extracts from `text`.
pub open spec fn frontend_records(lang: SourceLanguage, text: Seq<char>) -> Seq<RecordView> {
    match lang {
        SourceLanguage::Java => java::extract::imports_spec(text),
        _ => ts::extract_spec(lang, text),
    }
}

/// The package declaration the frontend for `lang` finds in `text` (only
/// Java has packages).
pub open spec fn frontend_package(lang: SourceLanguage, text: Seq<char>) -> Option<java::extract::PackageView> {
    match lang {
        SourceLanguage::Java => java::extract::package_spec(text),
        _ => None,
    }
}

/// A Java `package` declaration: dotted name plus the byte span of the name.
pub struct PackageDecl {
    /// Declared package name, e.g. `"com.example.utils"`.
    pub name: String,
    /// Byte range of the package name in the parsed file.
    pub span: std::ops::Range<usize>,
}

impl Clone for PackageDecl {
    fn clone(&self) -> (r: Self)
        ensures
            r.name@ == self.name@,
            r.span == self.span,
    {
        PackageDecl { name: self.name.clone(), span: self.span.start..self.span.end }
    }
}

/// Urgency of a [`FixCandidate`].
#[derive(Debug, Clone, Copy, PartialEq, Eq, Structural)]
pub enum Severity {
    /// The code does not compile (or resolve) without the fix.
    Error,
    /// The code works but is dirty: unused or misordered imports.
    Warning,
    /// Style note only.
    Info,
}

/// The stable lowercase name of a severity.
pub open spec fn severity_name(s: Severity) -> Seq<char> {
    match s {
        Severity::Error => "error"@,
        Severity::Warning => "warning"@,
        Severity::Info => "info"@,
    }
}

/// Overlap-resolution priority: lower is more urgent.
pub open spec fn severity_rank(s: Severity) -> u8 {
    match s {
        Severity::Error => 0,
        Severity::Warning => 1,
        Severity::Info => 2,
    }
}

impl Severity {
    /// Stable lowercase name used in `--json` output.
    pub fn as_str(self) -> (r: &'static str)
        ensures
            r@ == severity_name(self),
    {
        match self {
            Severity::Error => "error",
            Severity::Warning => "warning",
            Severity::Info => "info",
        }
    }

    /// Overlap-resolution priority: on a byte conflict the more urgent rule
    /// wins and the other candidate is deferred to the next run.
    pub fn rank(self) -> (r: u8)
        ensures
            r == severity_rank(self),
    {
        match self {
            Severity::Error => 0,
            Severity::Warning => 1,
            Severity::Info => 2,
        }
    }
}

/// One proposed fix for a single file: what is wrong and — when
/// `auto_fixable` — the exact edits that repair it.
pub struct FixCandidate {
    /// Stable rule id; also the value accepted by `jmove fix --rule`.
    pub rule: &'static str,
    /// One-line explanation for humans and agents.
    pub message: String,
    /// How urgent the fix is.
    pub severity: Severity,
    /// `false` marks an ambiguous finding an agent or human must resolve.
    pub auto_fixable: bool,
    /// Byte range of the offending construct.
    pub span: std::ops::Range<usize>,
    /// Edits on this file, ascending by span.
    pub edits: Vec<Edit>,
    /// Fully-qualified options for an ambiguous finding.
    pub candidates: Vec<String>,
}

/// A language frontend: extracts import records (and, for Java, the
/// package declaration) from source text. Parse errors are never fatal:
/// a frontend returns what it understood.
pub trait Language {
    /// The language this frontend handles.
    spec fn lang_spec(&self) -> SourceLanguage;

    /// What [`Language::extract_imports`] returns for `source`.
    spec fn records_spec(&self, source: Seq<char>) -> Seq<RecordView>;

    /// What [`Language::extract_package`] returns for `source`.
    spec fn package_spec(&self, source: Seq<char>) -> Option<java::extract::PackageView>;

    /// The language this frontend handles.
    fn language(&self) -> (r: SourceLanguage)
        ensures
            r == self.lang_spec(),
    ;

    /// All import records of `source`, in byte-offset order.
    fn extract_imports(&self, source: &str) -> (r: Vec<ImportRecord>)
        ensures
            record_views(r@) == self.records_spec(source@),
    ;

    /// The `package` declaration, for languages that have one.
    fn extract_package(&self, source: &str) -> (r: Option<PackageDecl>)
        ensures
            java::extract::package_view(r) == self.package_spec(source@),
    ;
}

impl Language for ts::TreeSitterTs {
    open spec fn lang_spec(&self) -> SourceLanguage {
        self.language_spec()
    }

    open spec fn records_spec(&self, source: Seq<char>) -> Seq<RecordView> {
        ts::extract_spec(self.language_spec(), source)
    }

    open spec fn package_spec(&self, source: Seq<char>) -> Option<java::extract::PackageView> {
        None
    }

    fn language(&self) -> (r: SourceLanguage) {
        ts::TreeSitterTs::language(self)
    }

    fn extract_imports(&self, source: &str) -> (r: Vec<ImportRecord>) {
        ts::TreeSitterTs::extract_imports(self, source)
    }

    fn extract_package(&self, source: &str) -> (r: Option<PackageDecl>) {
        None
    }
}

impl Language for java::TreeSitterJava {
    open spec fn lang_spec(&self) -> SourceLanguage {
        SourceLanguage::Java
    }

    open spec fn records_spec(&self, source: Seq<char>) -> Seq<RecordView> {
        java::extract::imports_spec(source)
    }

    open spec fn package_spec(&self, source: Seq<char>) -> Option<java::extract::PackageView> {
        java::extract::package_spec(source)
    }

    fn language(&self) -> (r: SourceLanguage) {
        SourceLanguage::Java
    }

    fn extract_imports(&self, source: &str) -> (r: Vec<ImportRecord>) {
        java::TreeSitterJava::extract_imports(self, source)
    }

    fn extract_package(&self, source: &str) -> (r: Option<PackageDecl>) {
        java::TreeSitterJava::extract_package(self, source)
    }
}

/// The frontend for one language: tree-sitter Java, or tree-sitter
/// TypeScript in one of its variants.
pub enum Frontend {
    /// `.java` sources.
    Java(java::TreeSitterJava),
    /// TS / TSX / JS sources.
    Ts(ts::TreeSitterTs),
}

impl Language for Frontend {
    open spec fn lang_spec(&self) -> SourceLanguage {
        match self {
            Frontend::Java(f) => f.lang_spec(),
            Frontend::Ts(f) => f.lang_spec(),
        }
    }

    open spec fn records_spec(&self, source: Seq<char>) -> Seq<RecordView> {
        match self {
            Frontend::Java(f) => f.records_spec(source),
            Frontend::Ts(f) => f.records_spec(source),
        }
    }

    open spec fn package_spec(&self, source: Seq<char>) -> Option<java::extract::PackageView> {
        match self {
            Frontend::Java(f) => f.package_spec(source),
            Frontend::Ts(f) => f.package_spec(source),
        }
    }

    fn language(&self) -> (r: SourceLanguage) {
        match self {
            Frontend::Java(f) => f.language(),
            Frontend::Ts(f) => f.language(),
        }
    }

    fn extract_imports(&self, source: &str) -> (r: Vec<ImportRecord>) {
        match self {
            Frontend::Java(f) => f.extract_imports(source),
            Frontend::Ts(f) => f.extract_imports(source),
        }
    }

    fn extract_package(&self, source: &str) -> (r: Option<PackageDecl>) {
        match self {
            Frontend::Java(f) => f.extract_package(source),
            Frontend::Ts(f) => f.extract_package(source),
        }
    }
}

/// The default frontend for `lang`: Java gets the Java grammar, every
/// TS/JS variant the TypeScript grammar it needs.
pub fn frontend_for(lang: SourceLanguage) -> (r: Frontend)
    ensures
        r.lang_spec() == lang,
        forall|s: Seq<char>| #[trigger] r.records_spec(s) == frontend_records(lang, s),
        forall|s: Seq<char>| #[trigger] r.package_spec(s) == frontend_package(lang, s),
{
    match lang {
        SourceLanguage::Java => Frontend::Java(java::TreeSitterJava::new()),
        _ => Frontend::Ts(ts::TreeSitterTs::new(lang)),
    }
}

/// A fix candidate as the contracts see it: rule, message, severity,
/// auto-fixable, span start and end, edits, candidate FQNs.
pub type FixView = (Seq<char>, Seq<char>, Severity, bool, int, int, Seq<EditView>, Seq<Seq<char>>);

/// The view of a candidate.
pub open spec fn fix_view(c: FixCandidate) -> FixView {
    (c.rule@, c.message@, c.severity, c.auto_fixable, c.span.start as int, c.span.end as int, edit_views(c.edits@), texts(c.candidates@))
}

/// The views of a candidate sequence.
pub open spec fn fix_views(s: Seq<FixCandidate>) -> Seq<FixView> {
    s.map_values(|c: FixCandidate| fix_view(c))
}

/// A deterministic single-file fix rule.
pub trait Fix {
    /// The rule id.
    spec fn rule_spec(&self) -> Seq<char>;

    /// What [`Fix::fixes`] proposes for `path` with contents `source`.
    spec fn fixes_spec(&self, path: Seq<char>, source: Seq<char>, index: Index) -> Seq<FixView>;

    /// Stable rule id reported in candidates and accepted by `--rule`.
    fn rule(&self) -> (r: &'static str)
        ensures
            r@ == self.rule_spec(),
    ;

    /// Candidates for `path` (project-relative) with the given contents.
    /// Only edits the rule can prove safe are auto-fixable; anything
    /// ambiguous goes out as a manual candidate.
    fn fixes(&self, path: &str, source: &str, index: &Index) -> (r: Vec<FixCandidate>)
        ensures
            fix_views(r@) == self.fixes_spec(path@, source@, *index),
    ;
}

/// One of the fix rules.
pub enum Fixer {
    /// `java/unused-import`.
    UnusedImports(java::rules::unused_imports::JavaUnusedImports),
    /// `java/missing-import`.
    MissingImports(java::rules::missing_imports::JavaMissingImports),
    /// `java/import-order`.
    ImportOrder(java::rules::import_order::JavaImportOrder),
    /// `ts/unused-import`.
    TsUnusedImports(ts::unused_imports::TsUnusedImports),
}

impl Fix for Fixer {
    open spec fn rule_spec(&self) -> Seq<char> {
        match self {
            Fixer::UnusedImports(f) => f.rule_spec(),
            Fixer::MissingImports(f) => f.rule_spec(),
            Fixer::ImportOrder(f) => f.rule_spec(),
            Fixer::TsUnusedImports(f) => f.rule_spec(),
        }
    }

    open spec fn fixes_spec(&self, path: Seq<char>, source: Seq<char>, index: Index) -> Seq<FixView> {
        match self {
            Fixer::UnusedImports(f) => f.fixes_spec(path, source, index),
            Fixer::MissingImports(f) => f.fixes_spec(path, source, index),
            Fixer::ImportOrder(f) => f.fixes_spec(path, source, index),
            Fixer::TsUnusedImports(f) => f.fixes_spec(path, source, index),
        }
    }

    fn rule(&self) -> (r: &'static str) {
        match self {
            Fixer::UnusedImports(f) => f.rule(),
            Fixer::MissingImports(f) => f.rule(),
            Fixer::ImportOrder(f) => f.rule(),
            Fixer::TsUnusedImports(f) => f.rule(),
        }
    }

    fn fixes(&self, path: &str, source: &str, index: &Index) -> (r: Vec<FixCandidate>) {
        match self {
            Fixer::UnusedImports(f) => f.fixes(path, source, index),
            Fixer::MissingImports(f) => f.fixes(path, source, index),
            Fixer::ImportOrder(f) => f.fixes(path, source, index),
            Fixer::TsUnusedImports(f) => f.fixes(path, source, index),
        }
    }
}

/// The rule ids of a rule set, in order.
pub open spec fn rule_names(fs: Seq<Fixer>) -> Seq<Seq<char>> {
    fs.map_values(|f: Fixer| f.rule_spec())
}

/// The rules run on files of `lang`: the three Java rules, in this order,
/// for Java; the unused-import rule for TS/JS.
pub open spec fn fixers_of(lang: SourceLanguage) -> Seq<Fixer> {
    match lang {
        SourceLanguage::Java => seq![
            Fixer::UnusedImports(java::rules::unused_imports::JavaUnusedImports),
            Fixer::MissingImports(java::rules::missing_imports::JavaMissingImports),
            Fixer::ImportOrder(java::rules::import_order::JavaImportOrder),
        ],
        _ => seq![Fixer::TsUnusedImports(ts::unused_imports::TsUnusedImports)],
    }
}

/// The rule ids run on files of `lang`, in order.
pub open spec fn fixers_spec(lang: SourceLanguage) -> Seq<Seq<char>> {
    match lang {
        SourceLanguage::Java => seq![
            java::rules::unused_imports::RULE@,
            java::rules::missing_imports::RULE@,
            java::rules::import_order::RULE@,
        ],
        _ => seq![ts::unused_imports::RULE@],
    }
}

/// Every rule id the fix command knows: the Java rules, then the TS one.
pub open spec fn all_rule_ids() -> Seq<Seq<char>> {
    fixers_spec(SourceLanguage::Java) + fixers_spec(SourceLanguage::TypeScript)
}

/// The rule set for `lang`.
pub fn fixers_for(lang: SourceLanguage) -> (r: Vec<Fixer>)
    ensures
        r@ == fixers_of(lang),
        rule_names(r@) == fixers_spec(lang),
{
    match lang {
        SourceLanguage::Java => {
            let r = vec![
                Fixer::UnusedImports(java::rules::unused_imports::JavaUnusedImports::new()),
                Fixer::MissingImports(java::rules::missing_imports::JavaMissingImports::new()),
                Fixer::ImportOrder(java::rules::import_order::JavaImportOrder::new()),
            ];
            assert(r@ =~= fixers_of(lang));
            assert(rule_names(r@) =~= fixers_spec(lang));
            r
        },
        _ => {
            let r = vec![Fixer::TsUnusedImports(ts::unused_imports::TsUnusedImports::new())];
            assert(r@ =~= fixers_of(lang));
            assert(rule_names(r@) =~= fixers_spec(lang));
            r
        },
    }
}

/// Every rule id the fix command knows about.
pub fn rule_ids() -> (r: Vec<&'static str>)
    ensures
        r@.map_values(|s: &'static str| s@) == all_rule_ids(),
{
    let r = vec![
        java::rules::unused_imports::RULE,
        java::rules::missing_imports::RULE,
        java::rules::import_order::RULE,
        ts::unused_imports::RULE,
    ];
    assert(r@.map_values(|s: &'static str| s@) =~= all_rule_ids());
    r
}

} // verus!

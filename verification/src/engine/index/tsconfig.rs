//! tsconfig `compilerOptions.paths`: the alias table for bare specifiers.
//!
//! Most real TS projects import through aliases (`@/utils/x`, `@cfg`).
//! Without the mapping those imports are invisible to the graph, so a move
//! would leave them pointing at the old location. Loading is best-effort
//! by design: no tsconfig, invalid JSON or an unreadable file simply mean
//! "no aliases", never an error. `extends` chains are not followed.
//!
//! tsconfig is JSONC: comments and trailing commas are legal, so the text
//! is sanitized before the JSON parser sees it.

use vstd::prelude::*;

use crate::engine::index::FileSet;
use crate::engine::normalize_rel_path;
use crate::json::{json_as_array, json_as_object, json_as_str, json_get, json_keys, json_member, json_model, json_members, json_parsed, member, parse_json, Json};
use crate::order::{insert_pos, insertion_sorted, sort_stable, text_lt, texts, TotalPreorder};
use crate::parser::resolve::{base_candidates, first_member, resolve_base};
use crate::path::{comp_text, comp_views, comps, comps_prefix, components, components_prefix, components_slice, join, join_path, normalized, push_path, slash, views, Comp};
use crate::text::{chars_ends_with, chars_eq, chars_of, chars_slice, chars_starts_with, extend_chars, string_of};

verus! {

/// One alias as the contracts see it: the text a specifier must start with
/// (star stripped), whether the key was starred, and the project-relative
/// directory (starred) or module base (exact) it maps into.
pub type AliasView = (Seq<char>, bool, Seq<char>);

/// `s` with every trailing `c` removed.
pub open spec fn trim_end_char(s: Seq<char>, c: char) -> Seq<char>
    decreases s.len(),
{
    if s.len() > 0 && s.last() == c {
        trim_end_char(s.drop_last(), c)
    } else {
        s
    }
}

/// `s` with every leading `./` removed.
pub open spec fn trim_dot_slash(s: Seq<char>) -> Seq<char>
    decreases s.len(),
{
    if s.len() >= 2 && s[0] == '.' && s[1] == '/' {
        trim_dot_slash(s.subrange(2, s.len() as int))
    } else {
        s
    }
}

/// `s` ends with `/*`.
pub open spec fn ends_slash_star(s: Seq<char>) -> bool {
    s.len() >= 2 && s[s.len() - 2] == '/' && s[s.len() - 1] == '*'
}

/// `s` with every trailing `/*` removed.
pub open spec fn trim_slash_star(s: Seq<char>) -> Seq<char>
    decreases s.len(),
{
    if ends_slash_star(s) {
        trim_slash_star(s.subrange(0, s.len() - 2))
    } else {
        s
    }
}

/// The first candidate of a `paths` target list, when it is a string.
pub open spec fn first_target(targets: Json) -> Option<Seq<char>> {
    match targets {
        Json::Array(xs) => if xs.len() > 0 {
            match xs[0] {
                Json::Str(s) => Some(s),
                _ => None,
            }
        } else {
            None
        },
        _ => None,
    }
}

/// The alias one `paths` member defines under `base`, if any.
pub open spec fn alias_of(key: Seq<char>, targets: Json, base: Seq<char>) -> Option<AliasView> {
    match first_target(targets) {
        None => None,
        Some(first) => {
            let starred = key.len() > 0 && key.last() == '*';
            let prefix = if starred { trim_end_char(key, '*') } else { key };
            let stripped = trim_dot_slash(first);
            let dir_src = if ends_slash_star(first) { trim_slash_star(stripped) } else { stripped };
            match normalized(join_path(base, dir_src)) {
                None => None,
                Some(dir) => Some((prefix, starred, dir)),
            }
        },
    }
}

/// The aliases of the `paths` members, in member order.
pub open spec fn aliases_from(ms: Seq<(Seq<char>, Json)>, base: Seq<char>) -> Seq<AliasView>
    decreases ms.len(),
{
    if ms.len() == 0 {
        Seq::empty()
    } else {
        let rest = aliases_from(ms.drop_first(), base);
        match alias_of(ms[0].0, ms[0].1, base) {
            Some(a) => seq![a] + rest,
            None => rest,
        }
    }
}

/// The member `key` of an object value.
pub open spec fn get_member(v: Json, key: Seq<char>) -> Option<Json> {
    match v {
        Json::Object(ms) => member(ms, key),
        _ => None,
    }
}

/// `compilerOptions.baseUrl`, normalized; empty when absent or invalid.
pub open spec fn base_url(options: Option<Json>) -> Seq<char> {
    match options {
        Some(o) => match get_member(o, "baseUrl"@) {
            Some(Json::Str(b)) => match normalized(b) {
                Some(n) => n,
                None => Seq::empty(),
            },
            _ => Seq::empty(),
        },
        None => Seq::empty(),
    }
}

/// Every alias a parsed tsconfig document defines, in member order.
pub open spec fn document_aliases(doc: Option<Json>) -> Seq<AliasView> {
    match doc {
        None => Seq::empty(),
        Some(v) => {
            let options = get_member(v, "compilerOptions"@);
            match options {
                Some(o) => match get_member(o, "paths"@) {
                    Some(Json::Object(pms)) => aliases_from(pms, base_url(options)),
                    _ => Seq::empty(),
                },
                None => Seq::empty(),
            }
        },
    }
}

/// Longest alias first: prefixes never increase along the table.
pub open spec fn longest_first(es: Seq<AliasView>) -> bool {
    forall|i: int, j: int| #![trigger es[i], es[j]] 0 <= i < j < es.len() ==> !text_lt(es[i].0, es[j].0)
}

/// Where a stable insertion puts alias `x` into the table `r`, scanning
/// from `p`: before the first alias whose prefix sorts below its own.
pub open spec fn alias_insert_pos(r: Seq<AliasView>, x: AliasView, p: int) -> int
    decreases r.len() - p,
{
    if p >= r.len() || text_lt(r[p].0, x.0) {
        p
    } else {
        alias_insert_pos(r, x, p + 1)
    }
}

/// The aliases stably sorted by prefix, descending: a longer prefix comes
/// before every prefix of it, and aliases with equal prefixes keep their
/// order.
pub open spec fn by_prefix_desc(s: Seq<AliasView>) -> Seq<AliasView>
    decreases s.len(),
{
    if s.len() == 0 {
        Seq::empty()
    } else {
        let r = by_prefix_desc(s.drop_last());
        r.insert(alias_insert_pos(r, s.last(), 0), s.last())
    }
}

/// Whether `alias` applies to `specifier`: a star entry by prefix (with
/// something after it), a plain key by equality.
pub open spec fn alias_matches(alias: AliasView, specifier: Seq<char>) -> bool {
    if alias.1 {
        specifier.len() > alias.0.len() && specifier.subrange(0, alias.0.len() as int) == alias.0
    } else {
        specifier == alias.0
    }
}

/// Index of the first alias that applies to `specifier`.
pub open spec fn find_alias(es: Seq<AliasView>, specifier: Seq<char>) -> Option<int>
    decreases es.len(),
{
    if es.len() == 0 {
        None
    } else if alias_matches(es[0], specifier) {
        Some(0)
    } else {
        match find_alias(es.drop_first(), specifier) {
            Some(k) => Some(k + 1),
            None => None,
        }
    }
}

/// The module base an alias maps `specifier` to (before normalization).
pub open spec fn alias_base(alias: AliasView, specifier: Seq<char>) -> Seq<char> {
    if alias.1 {
        join_path(alias.2, specifier.subrange(alias.0.len() as int, specifier.len() as int))
    } else {
        alias.2
    }
}

/// What [`PathAliases::resolve`] computes.
pub open spec fn resolve_alias(es: Seq<AliasView>, specifier: Seq<char>, files: Set<Seq<char>>) -> Option<Seq<char>> {
    match find_alias(es, specifier) {
        None => None,
        Some(k) => match normalized(alias_base(es[k], specifier)) {
            None => None,
            Some(b) => first_member(base_candidates(b), files),
        },
    }
}

/// The module suffixes alias remapping sheds, longest first.
pub open spec fn module_suffixes() -> Seq<Seq<char>> {
    seq![".d.ts"@, ".ts"@, ".tsx"@, ".js"@, ".jsx"@, ".mjs"@, ".cjs"@]
}

/// `s` ends with `suffix`.
pub open spec fn ends_with(s: Seq<char>, suffix: Seq<char>) -> bool {
    suffix.len() <= s.len() && s.subrange(s.len() - suffix.len(), s.len() as int) == suffix
}

/// `text` without the first module suffix (in [`module_suffixes`] order)
/// it ends with.
pub open spec fn shed_suffix(text: Seq<char>, sufs: Seq<Seq<char>>) -> Seq<char>
    decreases sufs.len(),
{
    if sufs.len() == 0 {
        text
    } else if ends_with(text, sufs[0]) {
        text.subrange(0, text.len() - sufs[0].len())
    } else {
        shed_suffix(text, sufs.drop_first())
    }
}

/// What [`PathAliases::remap`] computes.
pub open spec fn remap_alias(es: Seq<AliasView>, specifier: Seq<char>, target: Seq<char>, files: Set<Seq<char>>) -> Option<Seq<char>> {
    match find_alias(es, specifier) {
        None => None,
        Some(k) => if !es[k].1 {
            match resolve_alias(es, specifier, files) {
                Some(f) => if comps(f) == comps(target) { Some(specifier) } else { None },
                None => None,
            }
        } else {
            match path_below(es[k].2, target) {
                Some(text) => Some(es[k].0 + shed_suffix(text, module_suffixes())),
                None => None,
            }
        },
    }
}

/// The path of `target` below directory `dir`, its components after those
/// of `dir` joined by `/`; `None` when `target` is not below `dir`.
pub open spec fn path_below(dir: Seq<char>, target: Seq<char>) -> Option<Seq<char>> {
    let dc = comps(dir);
    let tc = comps(target);
    if comps_prefix(dc, tc) {
        let rest = tc.subrange(dc.len() as int, tc.len() as int);
        Some(join(rest.map_values(|c: Comp| comp_text(c)), slash()))
    } else {
        None
    }
}

/// The last three characters of `s` are those `suffix` ends with.
proof fn lemma_ends_with_chars(s: Seq<char>, suffix: Seq<char>)
    requires
        ends_with(s, suffix),
    ensures
        suffix.len() >= 1 ==> s[s.len() - 1] == suffix[suffix.len() - 1],
        suffix.len() >= 2 ==> s[s.len() - 2] == suffix[suffix.len() - 2],
        suffix.len() >= 3 ==> s[s.len() - 3] == suffix[suffix.len() - 3],
{
    let t = s.subrange(s.len() - suffix.len(), s.len() as int);
    if suffix.len() >= 1 {
        assert(t[suffix.len() - 1] == s[s.len() - 1]);
    }
    if suffix.len() >= 2 {
        assert(t[suffix.len() - 2] == s[s.len() - 2]);
    }
    if suffix.len() >= 3 {
        assert(t[suffix.len() - 3] == s[s.len() - 3]);
    }
}

/// Remapping through a star alias gives the alias prefix followed by the
/// target's path below the alias directory with its module extension
/// (`.d.ts`, `.ts`, `.tsx`, `.js`, `.jsx`, `.mjs` or `.cjs`) dropped, so
/// that resolution adds it back; a path with none of them is kept whole.
pub proof fn law_star_remap_drops_the_module_extension(
    es: Seq<AliasView>,
    specifier: Seq<char>,
    target: Seq<char>,
    files: Set<Seq<char>>,
)
    requires
        find_alias(es, specifier) matches Some(k) && es[k].1 && path_below(es[k].2, target) is Some,
    ensures
        ({
            let k = find_alias(es, specifier)->0;
            let prefix = es[k].0;
            let text = path_below(es[k].2, target)->0;
            let r = remap_alias(es, specifier, target, files);
            &&& ends_with(text, ".d.ts"@) ==> r == Some(prefix + text.subrange(0, text.len() - 5))
            &&& ends_with(text, ".ts"@) && !ends_with(text, ".d.ts"@) ==> r == Some(prefix + text.subrange(0, text.len() - 3))
            &&& ends_with(text, ".tsx"@) ==> r == Some(prefix + text.subrange(0, text.len() - 4))
            &&& ends_with(text, ".js"@) ==> r == Some(prefix + text.subrange(0, text.len() - 3))
            &&& ends_with(text, ".jsx"@) ==> r == Some(prefix + text.subrange(0, text.len() - 4))
            &&& ends_with(text, ".mjs"@) ==> r == Some(prefix + text.subrange(0, text.len() - 4))
            &&& ends_with(text, ".cjs"@) ==> r == Some(prefix + text.subrange(0, text.len() - 4))
            &&& !ends_with(text, ".ts"@) && !ends_with(text, ".tsx"@) && !ends_with(text, ".js"@) && !ends_with(text, ".jsx"@)
                && !ends_with(text, ".mjs"@) && !ends_with(text, ".cjs"@) ==> r == Some(prefix + text)
        }),
{
    reveal_strlit(".d.ts");
    reveal_strlit(".ts");
    reveal_strlit(".tsx");
    reveal_strlit(".js");
    reveal_strlit(".jsx");
    reveal_strlit(".mjs");
    reveal_strlit(".cjs");
    let k = find_alias(es, specifier)->0;
    let text = path_below(es[k].2, target)->0;
    let sufs = module_suffixes();
    assert(sufs[0] == ".d.ts"@ && sufs[1] == ".ts"@ && sufs[2] == ".tsx"@ && sufs[3] == ".js"@);
    assert(sufs[4] == ".jsx"@ && sufs[5] == ".mjs"@ && sufs[6] == ".cjs"@);
    lemma_find_alias(es, specifier);
    reveal_with_fuel(shed_suffix, 8);
    let r = remap_alias(es, specifier, target, files);
    let prefix = es[k].0;
    assert(r == Some(prefix + shed_suffix(text, sufs)));
    let exts = seq![".d.ts"@, ".ts"@, ".tsx"@, ".js"@, ".jsx"@, ".mjs"@, ".cjs"@];
    assert(exts == sufs);
    assert forall|a: int| 0 <= a < 7 && #[trigger] ends_with(text, exts[a]) implies {
        &&& text[text.len() - 1] == exts[a][exts[a].len() - 1]
        &&& text[text.len() - 2] == exts[a][exts[a].len() - 2]
        &&& text[text.len() - 3] == exts[a][exts[a].len() - 3]
    } by {
        lemma_ends_with_chars(text, exts[a]);
    }
    assert(ends_with(text, exts[0]) == ends_with(text, ".d.ts"@));
    assert(ends_with(text, exts[1]) == ends_with(text, ".ts"@));
    assert(ends_with(text, exts[2]) == ends_with(text, ".tsx"@));
    assert(ends_with(text, exts[3]) == ends_with(text, ".js"@));
    assert(ends_with(text, exts[4]) == ends_with(text, ".jsx"@));
    assert(ends_with(text, exts[5]) == ends_with(text, ".mjs"@));
    assert(ends_with(text, exts[6]) == ends_with(text, ".cjs"@));
    if ends_with(text, ".d.ts"@) {
        assert(text.subrange(text.len() - 3, text.len() as int) =~= ".ts"@);
    }
    assert(ends_with(text, ".d.ts"@) ==> r == Some(prefix + text.subrange(0, text.len() - 5)));
    assert(ends_with(text, ".ts"@) && !ends_with(text, ".d.ts"@) ==> r == Some(prefix + text.subrange(0, text.len() - 3)));
    assert(ends_with(text, ".tsx"@) ==> r == Some(prefix + text.subrange(0, text.len() - 4)));
    assert(ends_with(text, ".js"@) ==> r == Some(prefix + text.subrange(0, text.len() - 3)));
    assert(ends_with(text, ".jsx"@) ==> r == Some(prefix + text.subrange(0, text.len() - 4)));
    assert(ends_with(text, ".mjs"@) ==> r == Some(prefix + text.subrange(0, text.len() - 4)));
    assert(ends_with(text, ".cjs"@) ==> r == Some(prefix + text.subrange(0, text.len() - 4)));
}

/// One `paths` entry.
pub struct Entry {
    prefix: String,
    starred: bool,
    dir: String,
}

impl Entry {
    pub closed spec fn view_of(&self) -> AliasView {
        (self.prefix@, self.starred, self.dir@)
    }
}

impl TotalPreorder for Entry {
    closed spec fn le_spec(&self, other: &Self) -> bool {
        !text_lt(self.prefix@, other.prefix@)
    }

    proof fn lemma_total(a: &Self, b: &Self) {
        crate::order::lemma_text_order(a.prefix@, b.prefix@, a.prefix@);
    }

    proof fn lemma_transitive(a: &Self, b: &Self, c: &Self) {
        crate::order::lemma_text_order(a.prefix@, b.prefix@, c.prefix@);
        crate::order::lemma_text_order(a.prefix@, c.prefix@, b.prefix@);
        crate::order::lemma_text_order(b.prefix@, a.prefix@, c.prefix@);
        crate::order::lemma_text_order(b.prefix@, c.prefix@, a.prefix@);
        crate::order::lemma_text_order(c.prefix@, a.prefix@, b.prefix@);
        crate::order::lemma_text_order(c.prefix@, b.prefix@, a.prefix@);
    }

    fn le(&self, other: &Self) -> (r: bool) {
        let a = chars_of(self.prefix.as_str());
        let b = chars_of(other.prefix.as_str());
        !crate::order::chars_lt(a.as_slice(), b.as_slice())
    }
}

/// The views of a sequence of entries.
pub open spec fn entry_views(es: Seq<Entry>) -> Seq<AliasView> {
    es.map_values(|e: Entry| e.view_of())
}

/// Alias table; empty is a perfectly normal state.
pub struct PathAliases {
    entries: Vec<Entry>,
}

impl View for PathAliases {
    type V = Seq<AliasView>;

    closed spec fn view(&self) -> Seq<AliasView> {
        entry_views(self.entries@)
    }
}

impl PathAliases {
    /// No aliases.
    pub fn new() -> (r: Self)
        ensures
            r@ == Seq::<AliasView>::empty(),
    {
        let r = PathAliases { entries: Vec::new() };
        assert(r@ =~= Seq::<AliasView>::empty());
        r
    }

    /// Number of aliases.
    pub fn len(&self) -> (r: usize)
        ensures
            r == self@.len(),
    {
        self.entries.len()
    }

    /// Build the table from (already sanitized) tsconfig JSON: the
    /// aliases of `compilerOptions.paths` under `compilerOptions.baseUrl`,
    /// longest prefix first, aliases with equal prefixes in member order.
    /// Invalid JSON or a missing `paths` object yields no aliases.
    pub fn parse(json: &str) -> (r: Self)
        ensures
            r@ == by_prefix_desc(document_aliases(json_parsed(json@))),
            longest_first(r@),
    {
        match parse_json(json) {
            Some(v) => Self::from_document(&v),
            None => {
                let r = PathAliases::new();
                assert(document_aliases(json_parsed(json@)) =~= Seq::<AliasView>::empty());
                r
            },
        }
    }

    /// The table a parsed tsconfig document defines: the aliases of
    /// `compilerOptions.paths` under `compilerOptions.baseUrl`, longest
    /// prefix first, aliases with equal prefixes in member order.
    pub fn from_document(value: &serde_json::Value) -> (r: Self)
        ensures
            r@ == by_prefix_desc(document_aliases(Some(json_model(*value)))),
            longest_first(r@),
    {
        let ghost doc = json_model(*value);
        let options = json_get(value, "compilerOptions");
        let ghost opts: Option<Json> = match options { Some(o) => Some(json_model(*o)), None => None };
        proof {
            reveal_strlit("compilerOptions");
            reveal_strlit("baseUrl");
            reveal_strlit("paths");
            assert(opts == get_member(doc, "compilerOptions"@));
        }
        let base: String = match options {
            None => String::new(),
            Some(o) => match json_get(o, "baseUrl") {
                None => String::new(),
                Some(b) => match json_as_str(b) {
                    None => String::new(),
                    Some(text) => match normalize_rel_path(text) {
                        Some(n) => n,
                        None => String::new(),
                    },
                },
            },
        };
        assert(base@ == base_url(opts));
        let paths = match options {
            None => {
                return PathAliases::new();
            },
            Some(o) => match json_get(o, "paths") {
                None => {
                    return PathAliases::new();
                },
                Some(p) => match json_as_object(p) {
                    None => {
                        return PathAliases::new();
                    },
                    Some(m) => m,
                },
            },
        };
        let ghost pms = json_members(*paths);
        assert(document_aliases(Some(doc)) == aliases_from(pms, base@));
        let keys = json_keys(paths);
        let mut entries: Vec<Entry> = Vec::new();
        let mut i: usize = 0;
        assert(texts(keys@).len() == pms.len());
        assert(pms.subrange(0, pms.len() as int) =~= pms);
        assert(entry_views(entries@) =~= Seq::<AliasView>::empty());
        while i < keys.len()
            invariant
                i <= keys@.len(),
                keys@.len() == pms.len(),
                texts(keys@).no_duplicates(),
                pms == json_members(*paths),
                texts(keys@) == pms.map_values(|e: (Seq<char>, Json)| e.0),
                entry_views(entries@) + aliases_from(pms.subrange(i as int, pms.len() as int), base@)
                    == aliases_from(pms, base@),
            decreases keys.len() - i,
        {
            let key = &keys[i];
            let ghost rest = pms.subrange(i as int, pms.len() as int);
            assert(rest.drop_first() =~= pms.subrange(i + 1, pms.len() as int));
            assert(texts(keys@)[i as int] == key@);
            assert(key@ == pms[i as int].0);
            proof {
                lemma_member_first(pms, i as int);
            }
            let targets = match json_member(paths, key.as_str()) {
                Some(t) => t,
                None => {
                    assert(false);
                    i += 1;
                    continue;
                },
            };
            let ghost tm = json_model(*targets);
            assert(tm == pms[i as int].1);
            match Self::entry_of(key.as_str(), targets, base.as_str()) {
                Some(e) => {
                    let ghost before = entries@;
                    entries.push(e);
                    assert(entry_views(entries@) =~= entry_views(before).push(e.view_of()));
                    assert(entry_views(entries@) + aliases_from(rest.drop_first(), base@)
                        =~= entry_views(before) + aliases_from(rest, base@));
                },
                None => {},
            }
            i += 1;
        }
        assert(pms.subrange(i as int, pms.len() as int) =~= Seq::<(Seq<char>, Json)>::empty());
        assert(entry_views(entries@) =~= aliases_from(pms, base@));
        let sorted = sort_stable(entries);
        proof {
            lemma_sorted_views(entries@);
            assert forall|a: int, b: int| #![trigger entry_views(sorted@)[a], entry_views(sorted@)[b]]
                0 <= a < b < entry_views(sorted@).len() implies !text_lt(entry_views(sorted@)[a].0, entry_views(sorted@)[b].0) by {
                assert(sorted@[a].le_spec(&sorted@[b]));
            }
        }
        PathAliases { entries: sorted }
    }

    // The alias one `paths` member defines.
    fn entry_of(key: &str, targets: &serde_json::Value, base: &str) -> (r: Option<Entry>)
        ensures
            match r {
                Some(e) => alias_of(key@, json_model(*targets), base@) == Some(e.view_of()),
                None => alias_of(key@, json_model(*targets), base@) is None,
            },
    {
        let list = match json_as_array(targets) {
            Some(a) => a,
            None => return None,
        };
        if list.len() == 0 {
            return None;
        }
        assert(list@.map_values(|x: serde_json::Value| json_model(x))[0] == json_model(list@[0]));
        let first = match json_as_str(&list[0]) {
            Some(s) => s,
            None => return None,
        };
        assert(first_target(json_model(*targets)) == Some(first@));
        let kc = chars_of(key);
        let starred = kc.len() > 0 && kc[kc.len() - 1] == '*';
        let prefix = if starred {
            string_of(trim_end_chars(kc.as_slice(), '*').as_slice())
        } else {
            String::from_str(key)
        };
        let fc = chars_of(first);
        let stripped = trim_dot_slash_chars(fc.as_slice());
        let ends = fc.len() >= 2 && fc[fc.len() - 2] == '/' && fc[fc.len() - 1] == '*';
        let dir_src = if ends {
            trim_slash_star_chars(stripped.as_slice())
        } else {
            stripped
        };
        let mut joined = chars_of(base);
        push_path(&mut joined, dir_src.as_slice());
        let joined_s = string_of(joined.as_slice());
        match normalize_rel_path(joined_s.as_str()) {
            None => None,
            Some(dir) => Some(Entry { prefix, starred, dir }),
        }
    }

    // Index of the first entry that applies to `specifier`.
    fn find(&self, specifier: &str) -> (r: Option<usize>)
        ensures
            match r {
                Some(k) => find_alias(self@, specifier@) == Some(k as int) && k < self@.len(),
                None => find_alias(self@, specifier@) is None,
            },
    {
        let sc = chars_of(specifier);
        let mut i: usize = 0;
        assert(self@.subrange(0, self@.len() as int) =~= self@);
        while i < self.entries.len()
            invariant
                i <= self.entries@.len(),
                sc@ == specifier@,
                find_alias(self@, specifier@) == match find_alias(self@.subrange(i as int, self@.len() as int), specifier@) {
                    Some(k) => Some(k + i),
                    None => None::<int>,
                },
            decreases self.entries.len() - i,
        {
            let ghost rest = self@.subrange(i as int, self@.len() as int);
            assert(rest.drop_first() =~= self@.subrange(i + 1, self@.len() as int));
            let e = &self.entries[i];
            assert(rest[0] == e.view_of());
            let pc = chars_of(e.prefix.as_str());
            let hit = if e.starred {
                sc.len() > pc.len() && chars_starts_with(sc.as_slice(), pc.as_slice())
            } else {
                chars_eq(sc.as_slice(), pc.as_slice())
            };
            if hit {
                return Some(i);
            }
            i += 1;
        }
        None
    }

    // The module base the alias at `k` maps `specifier` to.
    fn base_for(&self, k: usize, specifier: &str) -> (r: String)
        requires
            k < self@.len(),
            alias_matches(self@[k as int], specifier@),
        ensures
            r@ == alias_base(self@[k as int], specifier@),
    {
        let e = &self.entries[k];
        assert(self@[k as int] == e.view_of());
        if e.starred {
            let sc = chars_of(specifier);
            let pc = chars_of(e.prefix.as_str());
            let tail = chars_slice(sc.as_slice(), pc.len(), sc.len());
            let mut buf = chars_of(e.dir.as_str());
            push_path(&mut buf, tail.as_slice());
            string_of(buf.as_slice())
        } else {
            e.dir.clone()
        }
    }

    /// Resolve a bare specifier through the first matching alias to an
    /// indexed file.
    pub fn resolve(&self, specifier: &str, files: &FileSet) -> (r: Option<String>)
        ensures
            match r {
                Some(f) => resolve_alias(self@, specifier@, files@) == Some(f@),
                None => resolve_alias(self@, specifier@, files@) is None,
            },
    {
        let k = match self.find(specifier) {
            Some(k) => k,
            None => return None,
        };
        proof {
            lemma_find_alias(self@, specifier@);
        }
        let base = self.base_for(k, specifier);
        match normalize_rel_path(base.as_str()) {
            None => None,
            Some(b) => resolve_base(b.as_str(), files),
        }
    }

    /// Re-express `target` through the same alias `specifier` used before.
    /// Star entries map by shape (the plan runs before the file exists at
    /// its destination, so no file-set check is possible): the target
    /// must sit inside the alias directory and sheds its module suffix the
    /// way `resolve` would re-add it. An exact key keeps its meaning only
    /// while it still resolves to `target`. `None` means "fall back to a
    /// relative specifier".
    pub fn remap(&self, specifier: &str, target: &str, files: &FileSet) -> (r: Option<String>)
        ensures
            match r {
                Some(s) => remap_alias(self@, specifier@, target@, files@) == Some(s@),
                None => remap_alias(self@, specifier@, target@, files@) is None,
            },
    {
        let k = match self.find(specifier) {
            Some(k) => k,
            None => return None,
        };
        let e = &self.entries[k];
        assert(self@[k as int] == e.view_of());
        if !e.starred {
            return match self.resolve(specifier, files) {
                Some(f) => {
                    let fc = components(f.as_str());
                    let tc = components(target);
                    if fc.len() == tc.len() && components_prefix(fc.as_slice(), tc.as_slice()) {
                        assert(comp_views(tc@).subrange(0, comp_views(fc@).len() as int) =~= comp_views(tc@));
                        assert(comps(f@) == comps(target@));
                        Some(String::from_str(specifier))
                    } else {
                        assert(comps(f@) != comps(target@)) by {
                            if comps(f@) == comps(target@) {
                                assert(comp_views(tc@).subrange(0, comp_views(fc@).len() as int) =~= comp_views(fc@));
                            }
                        }
                        None
                    }
                },
                None => None,
            };
        }
        let dc = components(e.dir.as_str());
        let tc = components(target);
        if !components_prefix(dc.as_slice(), tc.as_slice()) {
            return None;
        }
        let rest = components_slice(tc.as_slice(), dc.len(), tc.len());
        let mut parts: Vec<Vec<char>> = Vec::new();
        let mut i: usize = 0;
        while i < rest.len()
            invariant
                i <= rest@.len(),
                views(parts@) == comp_views(rest@).take(i as int).map_values(|c: Comp| comp_text(c)),
            decreases rest.len() - i,
        {
            let ghost prev = views(parts@);
            parts.push(crate::path::component_text(&rest[i]));
            assert(views(parts@) =~= prev.push(comp_text(comp_views(rest@)[i as int])));
            i += 1;
            assert(views(parts@) =~= comp_views(rest@).take(i as int).map_values(|c: Comp| comp_text(c)));
        }
        assert(comp_views(rest@).take(rest@.len() as int) =~= comp_views(rest@));
        let sep = chars_of("/");
        proof {
            reveal_strlit("/");
        }
        assert(sep@ =~= slash());
        let text = crate::path::join_chars(parts.as_slice(), sep.as_slice());
        let stem = shed_module_suffix(text.as_slice());
        let mut out = chars_of(e.prefix.as_str());
        extend_chars(&mut out, stem.as_slice());
        Some(string_of(out.as_slice()))
    }
}

impl Default for PathAliases {
    fn default() -> (r: Self)
        ensures
            r@ == Seq::<AliasView>::empty(),
    {
        PathAliases::new()
    }
}

/// With distinct keys, looking up a member's key finds that member.
proof fn lemma_insert_pos_views(r: Seq<Entry>, x: Entry, p: int)
    requires
        0 <= p,
    ensures
        insert_pos(r, x, p) == alias_insert_pos(entry_views(r), x.view_of(), p),
    decreases r.len() - p,
{
    if p < r.len() {
        assert(entry_views(r)[p] == r[p].view_of());
        lemma_insert_pos_views(r, x, p + 1);
    }
}

proof fn lemma_sorted_views(es: Seq<Entry>)
    ensures
        entry_views(insertion_sorted(es)) == by_prefix_desc(entry_views(es)),
    decreases es.len(),
{
    if es.len() > 0 {
        let init = es.drop_last();
        assert(entry_views(es).drop_last() =~= entry_views(init));
        lemma_sorted_views(init);
        let r = insertion_sorted(init);
        let x = es.last();
        lemma_insert_pos_views(r, x, 0);
        let p = insert_pos(r, x, 0);
        crate::order::lemma_insert_pos_bounds(r, x, 0);
        assert(entry_views(r.insert(p, x)) =~= entry_views(r).insert(p, x.view_of()));
    }
}

proof fn lemma_member_first(ms: Seq<(Seq<char>, Json)>, i: int)
    requires
        0 <= i < ms.len(),
        ms.map_values(|e: (Seq<char>, Json)| e.0).no_duplicates(),
    ensures
        member(ms, ms[i].0) == Some(ms[i].1),
    decreases i,
{
    let ks = ms.map_values(|e: (Seq<char>, Json)| e.0);
    if i > 0 {
        assert(ks[0] != ks[i]);
        let t = ms.drop_first();
        assert(t.map_values(|e: (Seq<char>, Json)| e.0) =~= ks.drop_first());
        lemma_member_first(t, i - 1);
        assert(t[i - 1] == ms[i]);
    }
}

/// A found alias matches the specifier and lies in range.
proof fn lemma_find_alias(es: Seq<AliasView>, specifier: Seq<char>)
    ensures
        find_alias(es, specifier) matches Some(k) ==> 0 <= k < es.len() && alias_matches(es[k], specifier),
    decreases es.len(),
{
    if es.len() > 0 && !alias_matches(es[0], specifier) {
        lemma_find_alias(es.drop_first(), specifier);
    }
}

// `s` with every trailing `c` removed.
fn trim_end_chars(s: &[char], c: char) -> (r: Vec<char>)
    ensures
        r@ == trim_end_char(s@, c),
{
    let mut n = s.len();
    assert(s@.subrange(0, s@.len() as int) =~= s@);
    while n > 0 && s[n - 1] == c
        invariant
            n <= s@.len(),
            trim_end_char(s@, c) == trim_end_char(s@.subrange(0, n as int), c),
        decreases n,
    {
        assert(s@.subrange(0, n as int).drop_last() =~= s@.subrange(0, n - 1));
        n -= 1;
    }
    chars_slice(s, 0, n)
}

// `s` with every leading `./` removed.
fn trim_dot_slash_chars(s: &[char]) -> (r: Vec<char>)
    ensures
        r@ == trim_dot_slash(s@),
{
    let mut k: usize = 0;
    assert(s@.subrange(0, s@.len() as int) =~= s@);
    while s.len() - k >= 2 && s[k] == '.' && s[k + 1] == '/'
        invariant
            k <= s@.len(),
            trim_dot_slash(s@) == trim_dot_slash(s@.subrange(k as int, s@.len() as int)),
        decreases s.len() - k,
    {
        assert(s@.subrange(k as int, s@.len() as int).subrange(2, s@.len() - k) =~= s@.subrange(k + 2, s@.len() as int));
        k += 2;
    }
    chars_slice(s, k, s.len())
}

// `s` with every trailing `/*` removed.
fn trim_slash_star_chars(s: &[char]) -> (r: Vec<char>)
    ensures
        r@ == trim_slash_star(s@),
{
    let mut n = s.len();
    assert(s@.subrange(0, s@.len() as int) =~= s@);
    while n >= 2 && s[n - 2] == '/' && s[n - 1] == '*'
        invariant
            n <= s@.len(),
            trim_slash_star(s@) == trim_slash_star(s@.subrange(0, n as int)),
        decreases n,
    {
        assert(s@.subrange(0, n as int).subrange(0, n - 2) =~= s@.subrange(0, n - 2));
        n -= 2;
    }
    chars_slice(s, 0, n)
}

// `text` without its first matching module suffix.
fn shed_module_suffix(text: &[char]) -> (r: Vec<char>)
    ensures
        r@ == shed_suffix(text@, module_suffixes()),
{
    let sufs: [&str; 7] = [".d.ts", ".ts", ".tsx", ".js", ".jsx", ".mjs", ".cjs"];
    proof {
        reveal_strlit(".d.ts");
        reveal_strlit(".ts");
        reveal_strlit(".tsx");
        reveal_strlit(".js");
        reveal_strlit(".jsx");
        reveal_strlit(".mjs");
        reveal_strlit(".cjs");
    }
    let ghost all = module_suffixes();
    assert(forall|j: int| 0 <= j < 7 ==> #[trigger] sufs@[j]@ == all[j]);
    let mut i: usize = 0;
    assert(all.subrange(0, 7) =~= all);
    while i < 7
        invariant
            i <= 7,
            all == module_suffixes(),
            all.len() == 7,
            forall|j: int| 0 <= j < 7 ==> #[trigger] sufs@[j]@ == all[j],
            shed_suffix(text@, all) == shed_suffix(text@, all.subrange(i as int, 7)),
        decreases 7 - i,
    {
        let ghost rest = all.subrange(i as int, 7);
        assert(rest.drop_first() =~= all.subrange(i + 1, 7));
        assert(rest[0] == sufs@[i as int]@);
        let suf = chars_of(sufs[i]);
        if chars_ends_with(text, suf.as_slice()) {
            return chars_slice(text, 0, text.len() - suf.len());
        }
        i += 1;
    }
    let mut r = Vec::new();
    extend_chars(&mut r, text);
    r
}

/// Strip `//` and `/* */` comments and trailing commas from JSONC text;
/// everything else, string contents included, is copied unchanged.
/// Strings are copied verbatim (escapes included), so `"http://x"` and
/// escaped quotes survive. An unterminated `/*` comment runs to the end.
pub fn sanitize_jsonc(src: &str) -> (r: String)
    ensures
        r@ == sanitized(src@, 0, false),
{
    let chars = crate::text::chars_of(src);
    let cs = chars.as_slice();
    let ghost b = cs@;
    let mut out: Vec<char> = Vec::new();
    let mut i: usize = 0;
    let mut in_string = false;
    while i < cs.len()
        invariant
            b == cs@,
            i <= b.len(),
            out@ + sanitized(b, i as int, in_string) == sanitized(b, 0, false),
        decreases b.len() - i,
    {
        let (next, state) = jsonc_step(cs, i, in_string);
        let ghost emitted = step_output(b, i as int, in_string);
        emit(&mut out, cs, i, in_string);
        assert(out@ + sanitized(b, next as int, state) == sanitized(b, 0, false));
        i = next;
        in_string = state;
    }
    string_of(out.as_slice())
}

/// Position after `i` where a `//` comment ends: the next `\n` (kept), or
/// the end of the text.
pub open spec fn line_comment_end(b: Seq<char>, i: int) -> int
    decreases b.len() - i,
{
    if i >= b.len() || b[i] == '\n' {
        if i >= b.len() { b.len() as int } else { i }
    } else {
        line_comment_end(b, i + 1)
    }
}

/// Position of the first `*/` at or after `i`, if any.
pub open spec fn close_at(b: Seq<char>, i: int) -> Option<int>
    decreases b.len() - i,
{
    if i + 1 >= b.len() {
        None
    } else if b[i] == '*' && b[i + 1] == '/' {
        Some(i)
    } else {
        close_at(b, i + 1)
    }
}

/// Where scanning resumes after a `/*` at `i`: past the closing `*/`, or
/// at the end of the text when the comment is unterminated.
pub open spec fn block_comment_end(b: Seq<char>, i: int) -> int {
    match close_at(b, i + 2) {
        Some(p) => p + 2,
        None => b.len() as int,
    }
}

/// ASCII whitespace as `u8::is_ascii_whitespace` defines it (a
/// multi-byte character never is).
pub open spec fn ascii_ws(c: char) -> bool {
    c == ' ' || c == '\t' || c == '\n' || c == '\x0C' || c == '\r'
}

/// The first character at or after `i` that is not whitespace.
pub open spec fn next_token(b: Seq<char>, i: int) -> Option<char>
    decreases b.len() - i,
{
    if i >= b.len() {
        None
    } else if !ascii_ws(b[i]) {
        Some(b[i])
    } else {
        next_token(b, i + 1)
    }
}


/// The characters one scanner step emits at `i` in the given state.
pub open spec fn step_output(b: Seq<char>, i: int, in_string: bool) -> Seq<char> {
    let c = b[i];
    if in_string {
        if c == '\\' && i + 1 < b.len() {
            seq![c, b[i + 1]]
        } else {
            seq![c]
        }
    } else if c == '"' {
        seq!['"']
    } else if c == '/' && i + 1 < b.len() && (b[i + 1] == '/' || b[i + 1] == '*') {
        Seq::empty()
    } else if c == ',' {
        match next_token(b, i + 1) {
            Some(t) => if t == '}' || t == ']' { Seq::empty() } else { seq![','] },
            None => seq![','],
        }
    } else {
        seq![c]
    }
}

/// Where one scanner step resumes, and in which state.
pub open spec fn step_next(b: Seq<char>, i: int, in_string: bool) -> (int, bool) {
    let c = b[i];
    if in_string {
        if c == '\\' && i + 1 < b.len() {
            (i + 2, true)
        } else if c == '"' {
            (i + 1, false)
        } else {
            (i + 1, true)
        }
    } else if c == '"' {
        (i + 1, true)
    } else if c == '/' && i + 1 < b.len() && b[i + 1] == '/' {
        (line_comment_end(b, i), false)
    } else if c == '/' && i + 1 < b.len() && b[i + 1] == '*' {
        (block_comment_end(b, i), false)
    } else {
        (i + 1, false)
    }
}

/// The sanitized text from character `i` on, in the given string state.
pub open spec fn sanitized(b: Seq<char>, i: int, in_string: bool) -> Seq<char>
    decreases b.len() - i,
{
    if i < 0 || i >= b.len() {
        Seq::empty()
    } else {
        let (n, s) = step_next(b, i, in_string);
        if n <= i || n > b.len() {
            Seq::empty()
        } else {
            step_output(b, i, in_string) + sanitized(b, n, s)
        }
    }
}

// One scanner step: the resume position and state.
fn jsonc_step(b: &[char], i: usize, in_string: bool) -> (r: (usize, bool))
    requires
        i < b@.len(),
    ensures
        r.0 as int == step_next(b@, i as int, in_string).0,
        r.1 == step_next(b@, i as int, in_string).1,
        r.0 > i,
        r.0 <= b@.len(),
{
    let c = b[i];
    if in_string {
        if c == '\\' && i + 1 < b.len() {
            (i + 2, true)
        } else if c == '"' {
            (i + 1, false)
        } else {
            (i + 1, true)
        }
    } else if c == '"' {
        (i + 1, true)
    } else if c == '/' && i + 1 < b.len() && b[i + 1] == '/' {
        let mut j = i;
        while j < b.len() && b[j] != '\n'
            invariant
                i <= j <= b@.len(),
                b@[i as int] == '/',
                line_comment_end(b@, i as int) == line_comment_end(b@, j as int),
            decreases b.len() - j,
        {
            j += 1;
        }
        assert(j > i);
        (j, false)
    } else if c == '/' && i + 1 < b.len() && b[i + 1] == '*' {
        let end = match find_close(b, i + 2) {
            Some(p) => p + 2,
            None => b.len(),
        };
        (end, false)
    } else {
        (i + 1, false)
    }
}

// Position of the first `*/` at or after `from`.
fn find_close(b: &[char], from: usize) -> (r: Option<usize>)
    requires
        from <= b@.len(),
    ensures
        match r {
            Some(p) => close_at(b@, from as int) == Some(p as int) && p + 1 < b@.len() && p >= from,
            None => close_at(b@, from as int) is None,
        },
{
    let mut j = from;
    while j < b.len() && b.len() - j >= 2
        invariant
            from <= j <= b@.len(),
            close_at(b@, from as int) == close_at(b@, j as int),
        decreases b.len() - j,
    {
        if b[j] == '*' && b[j + 1] == '/' {
            return Some(j);
        }
        j += 1;
    }
    None
}

// Append one scanner step's characters.
fn emit(out: &mut Vec<char>, b: &[char], i: usize, in_string: bool)
    requires
        i < b@.len(),
    ensures
        final(out)@ == old(out)@ + step_output(b@, i as int, in_string),
{
    let c = b[i];
    if in_string {
        out.push(c);
        if c == '\\' && i + 1 < b.len() {
            out.push(b[i + 1]);
        }
    } else if c == '"' {
        out.push('"');
    } else if c == '/' && i + 1 < b.len() && (b[i + 1] == '/' || b[i + 1] == '*') {
    } else if c == ',' {
        let mut j = i + 1;
        while j < b.len() && (b[j] == ' ' || b[j] == '\t' || b[j] == '\n' || b[j] == '\x0C' || b[j] == '\r')
            invariant
                i + 1 <= j <= b@.len(),
                next_token(b@, i + 1) == next_token(b@, j as int),
            decreases b.len() - j,
        {
            j += 1;
        }
        let closes = j < b.len() && (b[j] == '}' || b[j] == ']');
        if !closes {
            out.push(',');
        }
    } else {
        out.push(c);
    }
}

} // verus!

verus! {

proof fn lemma_plain_from(b: Seq<char>, i: int, in_string: bool)
    requires
        0 <= i <= b.len(),
        forall|k: int| 0 <= k < b.len() ==> #[trigger] b[k] != '/' && b[k] != ',',
    ensures
        sanitized(b, i, in_string) == b.subrange(i, b.len() as int),
    decreases b.len() - i,
{
    if i < b.len() {
        let (n, st) = step_next(b, i, in_string);
        assert(b[i] != '/' && b[i] != ',');
        lemma_plain_from(b, n, st);
        assert(b.subrange(i, b.len() as int) =~= step_output(b, i, in_string) + b.subrange(n, b.len() as int));
    } else {
        assert(b.subrange(i, b.len() as int) =~= Seq::<char>::empty());
    }
}

/// JSONC text without comments and commas, strings with any characters
/// included, comes back from sanitizing exactly as it was.
pub proof fn law_plain_jsonc_is_unchanged(b: Seq<char>)
    requires
        forall|k: int| 0 <= k < b.len() ==> #[trigger] b[k] != '/' && b[k] != ',',
    ensures
        sanitized(b, 0, false) == b,
{
    lemma_plain_from(b, 0, false);
    assert(b.subrange(0, b.len() as int) =~= b);
}

} // verus!

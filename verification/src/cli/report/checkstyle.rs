//! Checkstyle XML emission: one `<file>` per distinct path, one
//! `<error>` per violation. Rule ids become dotted pseudo-class names
//! (`jmove.java.unused-import`) in the `source` attribute, the convention
//! Checkstyle consumers group by.

use vstd::prelude::*;

use super::{violation_view, violation_views, Violation, ViolationView};
use crate::order::{chars_lt, text_lt};
use crate::text::{chars_of, decimal, push_char, push_str, str_eq, string_of, usize_text};

verus! {

/// XML attribute escaping of one character.
pub open spec fn escape_char(c: char) -> Seq<char> {
    if c == '&' {
        "&amp;"@
    } else if c == '<' {
        "&lt;"@
    } else if c == '>' {
        "&gt;"@
    } else if c == '"' {
        "&quot;"@
    } else {
        seq![c]
    }
}

/// XML attribute escaping (`&` first, so entities survive).
pub open spec fn escaped(s: Seq<char>) -> Seq<char>
    decreases s.len(),
{
    if s.len() == 0 {
        Seq::empty()
    } else {
        escaped(s.drop_last()) + escape_char(s.last())
    }
}

/// XML attribute escaping.
pub fn escape(text: &str) -> (r: String)
    ensures
        r@ == escaped(text@),
{
    let cs = chars_of(text);
    let mut out = String::new();
    let mut i: usize = 0;
    while i < cs.len()
        invariant
            cs@ == text@,
            i <= cs@.len(),
            out@ == escaped(cs@.take(i as int)),
        decreases cs.len() - i,
    {
        let c = cs[i];
        assert(cs@.take(i + 1).drop_last() =~= cs@.take(i as int));
        if c == '&' {
            push_str(&mut out, "&amp;");
        } else if c == '<' {
            push_str(&mut out, "&lt;");
        } else if c == '>' {
            push_str(&mut out, "&gt;");
        } else if c == '"' {
            push_str(&mut out, "&quot;");
        } else {
            let ghost before = out@;
            push_char(&mut out, c);
            assert(out@ =~= before + seq![c]);
        }
        i += 1;
    }
    assert(cs@.take(cs@.len() as int) =~= cs@);
    out
}

/// A rule as a dotted pseudo-class name: `jmove.` and the rule with `/`
/// replaced by `.`.
pub open spec fn source_spec(rule: Seq<char>) -> Seq<char> {
    "jmove."@ + rule.map_values(|c: char| if c == '/' { '.' } else { c })
}

/// The rule as a dotted pseudo-class name, Checkstyle style.
pub fn source(rule: &str) -> (r: String)
    ensures
        r@ == source_spec(rule@),
{
    let cs = chars_of(rule);
    let mut out = String::from_str("jmove.");
    let ghost head = out@;
    let mut i: usize = 0;
    while i < cs.len()
        invariant
            cs@ == rule@,
            i <= cs@.len(),
            out@ == head + cs@.take(i as int).map_values(|c: char| if c == '/' { '.' } else { c }),
        decreases cs.len() - i,
    {
        let c = if cs[i] == '/' { '.' } else { cs[i] };
        let ghost before = out@;
        push_char(&mut out, c);
        assert(cs@.take(i + 1).map_values(|c: char| if c == '/' { '.' } else { c })
            =~= cs@.take(i as int).map_values(|c: char| if c == '/' { '.' } else { c }).push(c));
        i += 1;
    }
    assert(cs@.take(cs@.len() as int) =~= cs@);
    out
}

/// The distinct files of the first `n` violations, in text order.
pub open spec fn file_order(vs: Seq<ViolationView>, n: int) -> Seq<Seq<char>>
    decreases n,
{
    if n <= 0 {
        Seq::empty()
    } else {
        let r = file_order(vs, n - 1);
        let f = vs[n - 1].3;
        if r.contains(f) {
            r
        } else {
            r.insert(first_file_after(r, f, 0), f)
        }
    }
}

/// Index of the first file of `r` from `i` on after `f` in text order.
pub open spec fn first_file_after(r: Seq<Seq<char>>, f: Seq<char>, i: int) -> int
    decreases r.len() - i,
{
    if i >= r.len() {
        r.len() as int
    } else if text_lt(f, r[i]) {
        i
    } else {
        first_file_after(r, f, i + 1)
    }
}

/// One `<error .../>` line.
pub open spec fn error_line(v: ViolationView) -> Seq<char> {
    "    <error line=\""@ + decimal(v.4 as nat) + "\" severity=\""@ + v.1 + "\" message=\""@ + escaped(v.2)
        + "\" source=\""@ + source_spec(v.0) + "\"/>\n"@
}

/// The error lines of the first `n` violations on file `f`.
pub open spec fn file_errors(vs: Seq<ViolationView>, f: Seq<char>, n: int) -> Seq<char>
    decreases n,
{
    if n <= 0 {
        Seq::empty()
    } else if vs[n - 1].3 == f {
        file_errors(vs, f, n - 1) + error_line(vs[n - 1])
    } else {
        file_errors(vs, f, n - 1)
    }
}

/// The `<file>` blocks of the first `k` files.
pub open spec fn file_blocks(vs: Seq<ViolationView>, files: Seq<Seq<char>>, k: int) -> Seq<char>
    decreases k,
{
    if k <= 0 {
        Seq::empty()
    } else {
        file_blocks(vs, files, k - 1) + "  <file name=\""@ + escaped(files[k - 1]) + "\">\n"@
            + file_errors(vs, files[k - 1], vs.len() as int) + "  </file>\n"@
    }
}

/// The Checkstyle document: one `<file>` per distinct file in text order,
/// its errors in input order.
pub open spec fn checkstyle_spec(vs: Seq<ViolationView>) -> Seq<char> {
    let files = file_order(vs, vs.len() as int);
    "<?xml version=\"1.0\" encoding=\"UTF-8\"?>\n<checkstyle version=\"10.0\">\n"@ + file_blocks(vs, files, files.len() as int)
        + "</checkstyle>\n"@
}

// The distinct files, in text order.
fn files_in_order(vs: &Vec<Violation>) -> (r: Vec<Vec<char>>)
    ensures
        crate::path::views(r@) == file_order(violation_views(vs@), vs@.len() as int),
{
    let ghost vv = violation_views(vs@);
    let mut r: Vec<Vec<char>> = Vec::new();
    let mut n: usize = 0;
    while n < vs.len()
        invariant
            vv == violation_views(vs@),
            n <= vs@.len(),
            crate::path::views(r@) == file_order(vv, n as int),
        decreases vs.len() - n,
    {
        let f = chars_of(vs[n].file.as_str());
        assert(vv[n as int].3 == f@);
        let ghost rv = crate::path::views(r@);
        let mut seen = false;
        let mut k: usize = 0;
        while k < r.len()
            invariant
                k <= r@.len(),
                rv == crate::path::views(r@),
                seen == exists|j: int| 0 <= j < k && rv[j] == f@,
            decreases r.len() - k,
        {
            assert(rv[k as int] == r@[k as int]@);
            if crate::text::chars_eq(r[k].as_slice(), f.as_slice()) {
                seen = true;
            }
            k += 1;
        }
        if seen {
            assert(rv.contains(f@));
        } else {
            assert(!rv.contains(f@)) by {
                if rv.contains(f@) {
                    let j = choose|j: int| 0 <= j < rv.len() && rv[j] == f@;
                }
            }
            let mut p: usize = 0;
            while p < r.len() && !chars_lt(f.as_slice(), r[p].as_slice())
                invariant
                    p <= r@.len(),
                    rv == crate::path::views(r@),
                    first_file_after(rv, f@, 0) == first_file_after(rv, f@, p as int),
                decreases r.len() - p,
            {
                p += 1;
            }
            let ghost fv = f@;
            r.insert(p, f);
            assert(crate::path::views(r@) =~= rv.insert(p as int, fv));
        }
        n += 1;
    }
    r
}

/// Render the violations as a Checkstyle XML document (always valid, also
/// without errors).
pub fn build(violations: &Vec<Violation>) -> (r: String)
    ensures
        r@ == checkstyle_spec(violation_views(violations@)),
{
    let ghost vv = violation_views(violations@);
    let files = files_in_order(violations);
    let ghost fv = crate::path::views(files@);
    let mut out = String::from_str("<?xml version=\"1.0\" encoding=\"UTF-8\"?>\n<checkstyle version=\"10.0\">\n");
    let ghost head = out@;
    let mut k: usize = 0;
    while k < files.len()
        invariant
            vv == violation_views(violations@),
            fv == crate::path::views(files@),
            k <= files@.len(),
            out@ == head + file_blocks(vv, fv, k as int),
        decreases files.len() - k,
    {
        let name = string_of(files[k].as_slice());
        assert(name@ == fv[k as int]);
        push_str(&mut out, "  <file name=\"");
        push_str(&mut out, escape(name.as_str()).as_str());
        push_str(&mut out, "\">\n");
        let ghost mid = out@;
        let mut i: usize = 0;
        while i < violations.len()
            invariant
                vv == violation_views(violations@),
                i <= violations@.len(),
                out@ == mid + file_errors(vv, name@, i as int),
            decreases violations.len() - i,
        {
            let v = &violations[i];
            assert(vv[i as int] == violation_view(*v));
            if str_eq(v.file.as_str(), name.as_str()) {
                push_str(&mut out, "    <error line=\"");
                push_str(&mut out, usize_text(v.line).as_str());
                push_str(&mut out, "\" severity=\"");
                push_str(&mut out, v.severity);
                push_str(&mut out, "\" message=\"");
                push_str(&mut out, escape(v.message.as_str()).as_str());
                push_str(&mut out, "\" source=\"");
                push_str(&mut out, source(v.rule).as_str());
                push_str(&mut out, "\"/>\n");
            }
            i += 1;
        }
        push_str(&mut out, "  </file>\n");
        k += 1;
    }
    push_str(&mut out, "</checkstyle>\n");
    out
}

} // verus!

verus! {

/// Escaped attribute text never holds a raw `<`, `>` or `"`, so it can
/// neither close the attribute nor open markup.
pub proof fn law_escaped_is_inert(s: Seq<char>)
    ensures
        forall|i: int| 0 <= i < escaped(s).len() ==> #[trigger] escaped(s)[i] != '<' && escaped(s)[i] != '>'
            && escaped(s)[i] != '"',
    decreases s.len(),
{
    if s.len() > 0 {
        law_escaped_is_inert(s.drop_last());
        let c = s.last();
        reveal_strlit("&amp;");
        reveal_strlit("&lt;");
        reveal_strlit("&gt;");
        reveal_strlit("&quot;");
        let pre = escaped(s.drop_last());
        let tail = escape_char(c);
        assert(escaped(s) == pre + tail);
        assert forall|i: int| 0 <= i < escaped(s).len() implies #[trigger] escaped(s)[i] != '<' && escaped(s)[i] != '>'
            && escaped(s)[i] != '"' by {
            if i < pre.len() {
                assert(escaped(s)[i] == pre[i]);
            } else {
                assert(escaped(s)[i] == tail[i - pre.len()]);
            }
        }
    }
}

/// Text without `&`, `<`, `>` and `"` is left exactly as it is.
pub proof fn law_plain_text_is_unchanged(s: Seq<char>)
    requires
        forall|i: int| 0 <= i < s.len() ==> #[trigger] s[i] != '&' && s[i] != '<' && s[i] != '>' && s[i] != '"',
    ensures
        escaped(s) == s,
    decreases s.len(),
{
    if s.len() > 0 {
        law_plain_text_is_unchanged(s.drop_last());
        assert(s.drop_last().push(s.last()) =~= s);
    }
}

} // verus!

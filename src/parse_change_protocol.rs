//! The parser's entry point: strips a `<pre>` wrapper, tells the two
//! dialects apart, and hands the text to the one it is written in.

use vstd::prelude::*;
use crate::change_types::FileChange;
use crate::protocol::{
    ChangeV, FileV, ParseError, changes_stripped, doc_stripped, lines_of, parsed_view, starts_with,
    has_prefix,
};
use crate::heading::{h_init, lemma_h_run_stripped, parse_headings, parse_headings_spec};
use crate::tags::{lemma_t_run_stripped, parse_tags, parse_tags_spec, t_init};
use crate::matcher::{occurs_at, occurs_at_exec, line_bounds, line_bounds_of, bounds_view, same_chars};
use crate::text::{chars_of, lf_only, slice_of, to_lf, trim, trimmed};

verus! {

/// `s` from position `i` on, with every occurrence of `p` removed, scanning
/// from the left.
pub open spec fn remove_from(s: Seq<char>, p: Seq<char>, i: int) -> Seq<char>
    decreases s.len() - i,
{
    if i < 0 || i >= s.len() || p.len() == 0 {
        s.skip(i)
    } else if occurs_at(s, p, i) {
        remove_from(s, p, i + p.len())
    } else {
        seq![s[i]] + remove_from(s, p, i + 1)
    }
}

/// The text without `<pre>` and `</pre>` tags.
pub open spec fn without_pre(t: Seq<char>) -> Seq<char> {
    remove_from(remove_from(t, "<pre>"@, 0), "</pre>"@, 0)
}

/// A line that carries nothing: blank, or a `---` rule.
pub open spec fn is_filler(line: Seq<char>) -> bool {
    trim(line).len() == 0 || trim(line) == "---"@
}

/// Whether the first line that is neither blank nor a `---` rule starts
/// with `### File`, from line `k` on.
pub open spec fn heading_from(ls: Seq<Seq<char>>, k: int) -> bool
    decreases ls.len() - k,
{
    if k < 0 || k >= ls.len() {
        false
    } else if is_filler(ls[k]) {
        heading_from(ls, k + 1)
    } else {
        starts_with(trim(ls[k]), "### File"@)
    }
}

/// A document is in the heading dialect when its first line that is
/// neither blank nor a `---` rule starts with `### File`; otherwise it is in
/// the tag dialect.
pub open spec fn is_heading_doc(s: Seq<char>) -> bool {
    heading_from(lines_of(s), 0)
}

/// What a protocol text parses to, once its line endings are LF.
pub open spec fn parse_spec(t: Seq<char>) -> Result<Seq<crate::protocol::FileV>, crate::protocol::PFail> {
    let s = without_pre(lf_only(t));
    if is_heading_doc(s) {
        parse_headings_spec(s)
    } else {
        parse_tags_spec(s)
    }
}

/// Removes every occurrence of `p`, scanning from the left.
pub fn remove_all(s: &Vec<char>, p: &Vec<char>) -> (r: Vec<char>)
    ensures
        r@ == remove_from(s@, p@, 0),
{
    let mut out: Vec<char> = Vec::new();
    let n = s.len();
    let mut i: usize = 0;
    while i < n && p.len() > 0
        invariant
            n == s@.len(),
            i <= n,
            remove_from(s@, p@, 0) == out@ + remove_from(s@, p@, i as int),
        decreases n - i,
    {
        if p.len() <= n - i && occurs_at_exec(s, p, i) {
            i = i + p.len();
        } else {
            proof {
                assert(!occurs_at(s@, p@, i as int));
                assert(out@.push(s@[i as int]) + remove_from(s@, p@, i + 1) =~= out@ + (seq![s@[i as int]]
                    + remove_from(s@, p@, i + 1)));
            }
            out.push(s[i]);
            i = i + 1;
        }
    }
    let tail = slice_of(s, i, n);
    assert(tail@ =~= s@.skip(i as int));
    let mut k: usize = 0;
    let ghost base = out@;
    while k < tail.len()
        invariant
            k <= tail@.len(),
            out@ == base + tail@.take(k as int),
        decreases tail@.len() - k,
    {
        out.push(tail[k]);
        k = k + 1;
        assert(out@ =~= base + tail@.take(k as int));
    }
    assert(tail@.take(tail@.len() as int) =~= tail@);
    assert(remove_from(s@, p@, i as int) == s@.skip(i as int));
    out
}

fn is_heading_text(s: &Vec<char>) -> (r: bool)
    ensures
        r == is_heading_doc(s@),
{
    let b = line_bounds_of(s);
    let ghost ls = lines_of(s@);
    let marker = chars_of("### File");
    let rule = chars_of("---");
    let mut k: usize = 0;
    while k < b.len()
        invariant
            k <= b@.len(),
            ls == lines_of(s@),
            ls.len() == b@.len(),
            bounds_view(b@) == line_bounds(s@),
            forall|q: int| #![trigger b@[q]] 0 <= q < b@.len() ==> b@[q].0 <= b@[q].1 && b@[q].1 <= s@.len(),
            heading_from(ls, 0) == heading_from(ls, k as int),
            marker@ == "### File"@,
            rule@ == "---"@,
        decreases b@.len() - k,
    {
        let (lo, hi) = b[k];
        assert(bounds_view(b@)[k as int] == line_bounds(s@)[k as int]);
        let line = slice_of(s, lo, hi);
        assert(line@ == ls[k as int]);
        let t = trimmed(&line);
        if t.len() > 0 && !same_chars(&t, &rule) {
            let r = has_prefix(&t, &marker);
            return r;
        }
        k = k + 1;
    }
    false
}

/// Parses a change protocol document, in either dialect, into its file
/// instructions in document order. Any error rejects the whole document.
pub fn parse_change_protocol(xml_protocol: &str) -> (r: Result<Vec<FileChange>, ParseError>)
    ensures
        parsed_view(r) == parse_spec(xml_protocol@),
{
    let raw = to_lf(&chars_of(xml_protocol));
    let once = remove_all(&raw, &chars_of("<pre>"));
    let text = remove_all(&once, &chars_of("</pre>"));
    if is_heading_text(&text) {
        parse_headings(&text)
    } else {
        parse_tags(&text)
    }
}

/// In a parsed document, in either dialect, every search text is what
/// elision stripping produced, and every content is empty or such text
/// trimmed: the lines that are `===` once trimmed are gone
/// (`lemma_elision_lines_removed` states what stripping keeps).
pub proof fn lemma_parsed_texts_are_stripped(t: Seq<char>)
    requires
        parse_spec(t) is Ok,
    ensures
        doc_stripped(parse_spec(t)->Ok_0),
{
    let s = without_pre(lf_only(t));
    assert(changes_stripped(Seq::<ChangeV>::empty()));
    assert(doc_stripped(Seq::<FileV>::empty()));
    if is_heading_doc(s) {
        lemma_h_run_stripped(lines_of(s), 0, h_init());
    } else {
        lemma_t_run_stripped(s, 0, t_init());
    }
}

} // verus!

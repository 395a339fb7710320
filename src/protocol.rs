//! What the two protocol dialects share: the plain-value model of a parsed
//! document, the parse errors, and the handling of elided lines.

use vstd::prelude::*;
use crate::change_types::{Action, Change, FileChange};
use crate::matcher::{line_bounds, line_bounds_of, same_chars};
use crate::text::{chars_of, slice_of, trim, trimmed, push_all};
use crate::apply_file_change::opt_view;

verus! {

/// A `Change` over plain values.
pub struct ChangeV {
    pub description: Seq<char>,
    pub search: Option<Seq<char>>,
    pub content: Seq<char>,
}

/// A `FileChange` over plain values.
pub struct FileV {
    pub path: Seq<char>,
    pub action: Action,
    pub changes: Seq<ChangeV>,
}

pub open spec fn change_view(c: Change) -> ChangeV {
    ChangeV { description: c.description@, search: opt_view(c.search), content: c.content@ }
}

pub open spec fn file_view(f: FileChange) -> FileV {
    FileV { path: f.path@, action: f.action, changes: f.changes@.map_values(|c: Change| change_view(c)) }
}

pub open spec fn doc_view(v: Seq<FileChange>) -> Seq<FileV> {
    v.map_values(|f: FileChange| file_view(f))
}

/// Why a protocol document was rejected as a whole.
#[derive(Debug, Clone, PartialEq, Eq)]
pub enum ParseError {
    /// An action token other than modify, rewrite, create or delete.
    UnknownAction { token: String },
    /// A file block without an action.
    MissingAction { path: String },
    /// A file element without a path attribute.
    MissingPath,
    /// A tag that is not closed by `>`.
    UnterminatedTag,
    /// An element that is still open at the end of the text.
    UnclosedElement,
}

/// A `ParseError` over plain values.
pub enum PFail {
    UnknownAction(Seq<char>),
    MissingAction(Seq<char>),
    MissingPath,
    UnterminatedTag,
    UnclosedElement,
}

impl ParseError {
    pub open spec fn fail(self) -> PFail {
        match self {
            ParseError::UnknownAction { token } => PFail::UnknownAction(token@),
            ParseError::MissingAction { path } => PFail::MissingAction(path@),
            ParseError::MissingPath => PFail::MissingPath,
            ParseError::UnterminatedTag => PFail::UnterminatedTag,
            ParseError::UnclosedElement => PFail::UnclosedElement,
        }
    }
}

pub open spec fn parsed_view(r: Result<Vec<FileChange>, ParseError>) -> Result<Seq<FileV>, PFail> {
    match r {
        Ok(v) => Ok(doc_view(v@)),
        Err(e) => Err(e.fail()),
    }
}

/// The action a token names.
pub open spec fn action_of(t: Seq<char>) -> Option<Action> {
    if t == "modify"@ {
        Some(Action::Modify)
    } else if t == "rewrite"@ {
        Some(Action::Rewrite)
    } else if t == "create"@ {
        Some(Action::Create)
    } else if t == "delete"@ {
        Some(Action::Delete)
    } else {
        None
    }
}

pub fn parse_action(t: &Vec<char>) -> (r: Option<Action>)
    ensures
        r == action_of(t@),
{
    if same_chars(t, &chars_of("modify")) {
        Some(Action::Modify)
    } else if same_chars(t, &chars_of("rewrite")) {
        Some(Action::Rewrite)
    } else if same_chars(t, &chars_of("create")) {
        Some(Action::Create)
    } else if same_chars(t, &chars_of("delete")) {
        Some(Action::Delete)
    } else {
        None
    }
}

pub open spec fn starts_with(s: Seq<char>, p: Seq<char>) -> bool {
    p.len() <= s.len() && s.take(p.len() as int) == p
}

pub fn has_prefix(s: &Vec<char>, p: &Vec<char>) -> (r: bool)
    ensures
        r == starts_with(s@, p@),
{
    if p.len() > s.len() {
        return false;
    }
    let mut i: usize = 0;
    while i < p.len()
        invariant
            p@.len() <= s@.len(),
            i <= p@.len(),
            forall|k: int| 0 <= k < i ==> s@[k] == p@[k],
        decreases p@.len() - i,
    {
        if s[i] != p[i] {
            assert(s@.take(p@.len() as int)[i as int] != p@[i as int]);
            return false;
        }
        i = i + 1;
    }
    assert(s@.take(p@.len() as int) =~= p@);
    true
}

/// The lines of `s`: the text between line feeds.
pub open spec fn lines_of(s: Seq<char>) -> Seq<Seq<char>> {
    Seq::new(line_bounds(s).len(), |k: int| s.subrange(line_bounds(s)[k].0, line_bounds(s)[k].1))
}

/// The lines joined by line feeds.
pub open spec fn join_lines(ls: Seq<Seq<char>>) -> Seq<char>
    decreases ls.len(),
{
    if ls.len() == 0 {
        Seq::empty()
    } else if ls.len() == 1 {
        ls[0]
    } else {
        join_lines(ls.drop_last()) + seq!['\n'] + ls.last()
    }
}

/// A line that marks elided context: `===` once trimmed.
pub open spec fn is_elision(line: Seq<char>) -> bool {
    trim(line) == "==="@
}

/// The lines that are not elision markers, in order.
pub open spec fn kept_lines(ls: Seq<Seq<char>>) -> Seq<Seq<char>>
    decreases ls.len(),
{
    if ls.len() == 0 {
        ls
    } else if is_elision(ls.last()) {
        kept_lines(ls.drop_last())
    } else {
        kept_lines(ls.drop_last()).push(ls.last())
    }
}

/// `s` without its elision-marker lines.
pub open spec fn strip_elision_spec(s: Seq<char>) -> Seq<char> {
    join_lines(kept_lines(lines_of(s)))
}

pub proof fn lemma_kept_lines_no_elision(ls: Seq<Seq<char>>)
    ensures
        forall|k: int| 0 <= k < kept_lines(ls).len() ==> !is_elision(#[trigger] kept_lines(ls)[k]),
    decreases ls.len(),
{
    if ls.len() > 0 {
        lemma_kept_lines_no_elision(ls.drop_last());
        let prev = kept_lines(ls.drop_last());
        if !is_elision(ls.last()) {
            assert forall|k: int| 0 <= k < prev.push(ls.last()).len() implies !is_elision(
                #[trigger] prev.push(ls.last())[k],
            ) by {
                if k < prev.len() {
                    assert(prev.push(ls.last())[k] == prev[k]);
                }
            }
        }
    }
}

proof fn lemma_kept_lines_filter(ls: Seq<Seq<char>>)
    ensures
        kept_lines(ls) == ls.filter(|l: Seq<char>| !is_elision(l)),
    decreases ls.len(),
{
    if ls.len() > 0 {
        lemma_kept_lines_filter(ls.drop_last());
        assert(ls.drop_last().push(ls.last()) =~= ls);
        ls.drop_last().lemma_filter_push(ls.last(), |l: Seq<char>| !is_elision(l));
    }
}

/// Stripping elision markers keeps exactly the lines of `s` that are not
/// `===` once trimmed, in order, joined by line feeds; none of the lines
/// kept is a marker.
pub proof fn lemma_elision_lines_removed(s: Seq<char>)
    ensures
        strip_elision_spec(s) == join_lines(lines_of(s).filter(|l: Seq<char>| !is_elision(l))),
        forall|k: int|
            0 <= k < kept_lines(lines_of(s)).len() ==> !is_elision(
                #[trigger] kept_lines(lines_of(s))[k],
            ),
{
    lemma_kept_lines_no_elision(lines_of(s));
    lemma_kept_lines_filter(lines_of(s));
}

/// Appends `line` to `out`, which holds the join of `n` lines, as one more line.
pub fn push_line(out: &mut Vec<char>, n: usize, line: &Vec<char>)
    requires
        n == 0 ==> old(out)@.len() == 0,
    ensures
        final(out)@ == if n == 0 {
            line@
        } else {
            old(out)@ + seq!['\n'] + line@
        },
{
    if n > 0 {
        out.push('\n');
    }
    push_all(out, line);
    assert(n == 0 ==> old(out)@ + line@ =~= line@);
}

pub fn is_elision_line(line: &Vec<char>) -> (r: bool)
    ensures
        r == is_elision(line@),
{
    same_chars(&trimmed(line), &chars_of("==="))
}

/// Joins the lines with line feeds.
pub fn join_all(ls: &Vec<Vec<char>>) -> (r: Vec<char>)
    ensures
        r@ == join_lines(ls@.map_values(|x: Vec<char>| x@)),
{
    let ghost v = ls@.map_values(|x: Vec<char>| x@);
    let mut out: Vec<char> = Vec::new();
    let mut i: usize = 0;
    while i < ls.len()
        invariant
            i <= ls@.len(),
            v == ls@.map_values(|x: Vec<char>| x@),
            out@ == join_lines(v.take(i as int)),
        decreases ls@.len() - i,
    {
        let ghost cur = v.take(i + 1);
        assert(cur.drop_last() =~= v.take(i as int));
        assert(cur.last() == ls@[i as int]@);
        assert(i == 0 ==> cur.len() == 1 && cur[0] == ls@[0]@);
        push_line(&mut out, i, &ls[i]);
        i = i + 1;
    }
    assert(v.take(ls@.len() as int) =~= v);
    out
}

/// Removes the lines of `s` that are exactly `===` once trimmed.
pub fn strip_elision(s: &Vec<char>) -> (r: Vec<char>)
    ensures
        r@ == strip_elision_spec(s@),
{
    let b = line_bounds_of(s);
    let ghost ls = lines_of(s@);
    let mut out: Vec<char> = Vec::new();
    let mut n: usize = 0;
    let mut k: usize = 0;
    while k < b.len()
        invariant
            k <= b@.len(),
            ls == lines_of(s@),
            ls.len() == b@.len(),
            crate::matcher::bounds_view(b@) == line_bounds(s@),
            forall|q: int| #![trigger b@[q]] 0 <= q < b@.len() ==> b@[q].0 <= b@[q].1 && b@[q].1 <= s@.len(),
            n == kept_lines(ls.take(k as int)).len(),
            n <= k,
            out@ == join_lines(kept_lines(ls.take(k as int))),
        decreases b@.len() - k,
    {
        let (lo, hi) = b[k];
        assert(crate::matcher::bounds_view(b@)[k as int] == line_bounds(s@)[k as int]);
        let line = slice_of(s, lo, hi);
        assert(line@ == ls[k as int]);
        let ghost cur = ls.take(k + 1);
        assert(cur.drop_last() =~= ls.take(k as int));
        assert(cur.last() == ls[k as int]);
        if !is_elision_line(&line) {
            let ghost prev = kept_lines(ls.take(k as int));
            push_line(&mut out, n, &line);
            proof {
                let nxt = prev.push(line@);
                assert(nxt.drop_last() =~= prev);
                if n == 0 {
                    assert(join_lines(prev) =~= Seq::<char>::empty());
                    assert(nxt.len() == 1);
                }
            }
            n = n + 1;
        }
        k = k + 1;
    }
    assert(ls.take(b@.len() as int) =~= ls);
    out
}

/// Text that elision stripping produced.
pub open spec fn is_stripped(t: Seq<char>) -> bool {
    exists|raw: Seq<char>| t == #[trigger] strip_elision_spec(raw)
}

/// A change whose search text is stripped of elision markers, and whose
/// content is empty or stripped text trimmed.
pub open spec fn change_stripped(c: ChangeV) -> bool {
    &&& (c.search is None || is_stripped(c.search->0))
    &&& (c.content.len() == 0 || exists|raw: Seq<char>|
        c.content == trim(#[trigger] strip_elision_spec(raw)))
}

pub open spec fn changes_stripped(cs: Seq<ChangeV>) -> bool {
    forall|j: int| 0 <= j < cs.len() ==> change_stripped(#[trigger] cs[j])
}

/// Every change of every file is stripped of elision markers.
pub open spec fn doc_stripped(d: Seq<FileV>) -> bool {
    forall|i: int| 0 <= i < d.len() ==> changes_stripped(#[trigger] d[i].changes)
}

} // verus!

//! Decides what applying one file instruction does to its file, forward or
//! in reverse. The caller reads the file beforehand and carries out the
//! returned operation.

use vstd::prelude::*;
use crate::change_types::{Action, Change, FileChange};
use crate::matcher::{replace_located, replaced, span_of, splice};
use crate::text::{chars_of, string_of, push_all, trim, trimmed};

verus! {

/// Why a file instruction could not be applied.
#[derive(Debug, Clone, PartialEq, Eq)]
pub enum ApplyError {
    /// A `Modify` fragment carries no search text.
    MissingSearch,
    /// No matcher tier located this text.
    NotFound { needle: String },
    /// A `Rewrite` whose content is empty or whitespace only.
    EmptyRewrite,
    /// `Create` on a path that exists.
    AlreadyExists { path: String },
    /// `Modify` or `Delete` on a path that does not exist.
    MissingFile { path: String },
    /// The file exists but could not be read.
    ReadFailed { path: String },
}

/// An `ApplyError` over plain values.
pub enum Failure {
    MissingSearch,
    NotFound(Seq<char>),
    EmptyRewrite,
    AlreadyExists(Seq<char>),
    MissingFile(Seq<char>),
    ReadFailed(Seq<char>),
}

impl ApplyError {
    pub open spec fn failure(self) -> Failure {
        match self {
            ApplyError::MissingSearch => Failure::MissingSearch,
            ApplyError::NotFound { needle } => Failure::NotFound(needle@),
            ApplyError::EmptyRewrite => Failure::EmptyRewrite,
            ApplyError::AlreadyExists { path } => Failure::AlreadyExists(path@),
            ApplyError::MissingFile { path } => Failure::MissingFile(path@),
            ApplyError::ReadFailed { path } => Failure::ReadFailed(path@),
        }
    }
}

/// What the caller has to do to the file system.
#[derive(Debug, Clone, PartialEq, Eq)]
pub enum FsOp {
    /// Write `contents` to `path`, creating missing parent directories first
    /// when `create_parents` is set.
    Write { path: String, contents: String, create_parents: bool },
    /// Remove the file at `path`.
    Remove { path: String },
    /// Leave the file system as it is.
    Keep,
}

/// An outcome of planning, over plain values.
pub enum Planned {
    Write(Seq<char>, Seq<char>, bool),
    Remove(Seq<char>),
    Keep,
    Fails(Failure),
}

pub open spec fn text_result(r: Result<String, ApplyError>) -> Result<Seq<char>, Failure> {
    match r {
        Ok(t) => Ok(t@),
        Err(e) => Err(e.failure()),
    }
}

pub open spec fn plan_view(r: Result<FsOp, ApplyError>) -> Planned {
    match r {
        Ok(FsOp::Write { path, contents, create_parents }) => Planned::Write(
            path@,
            contents@,
            create_parents,
        ),
        Ok(FsOp::Remove { path }) => Planned::Remove(path@),
        Ok(FsOp::Keep) => Planned::Keep,
        Err(e) => Planned::Fails(e.failure()),
    }
}

/// One `Modify` fragment applied to `h`.
pub open spec fn step(h: Seq<char>, c: Change) -> Result<Seq<char>, Failure> {
    match c.search {
        None => Err(Failure::MissingSearch),
        Some(s) => match replaced(h, s@, c.content@) {
            Some(t) => Ok(t),
            None => Err(Failure::NotFound(s@)),
        },
    }
}

/// The fragments applied in order, each to the text the previous ones left.
pub open spec fn modify_spec(h: Seq<char>, cs: Seq<Change>) -> Result<Seq<char>, Failure>
    decreases cs.len(),
{
    if cs.len() == 0 {
        Ok(h)
    } else {
        match modify_spec(h, cs.drop_last()) {
            Ok(x) => step(x, cs.last()),
            Err(f) => Err(f),
        }
    }
}

/// A failure part way through a `Modify` is the failure of the whole.
pub proof fn lemma_modify_failure_stays(h: Seq<char>, cs: Seq<Change>, k: int)
    requires
        0 <= k <= cs.len(),
        modify_spec(h, cs.take(k)) is Err,
    ensures
        modify_spec(h, cs) == modify_spec(h, cs.take(k)),
    decreases cs.len() - k,
{
    if k < cs.len() {
        assert(cs.take(k + 1).drop_last() =~= cs.take(k));
        lemma_modify_failure_stays(h, cs, k + 1);
    } else {
        assert(cs.take(k) =~= cs);
    }
}

/// One `Modify` fragment undone: its content is located and its search text
/// put back.
pub open spec fn unstep(h: Seq<char>, c: Change) -> Result<Seq<char>, Failure> {
    match c.search {
        None => Err(Failure::MissingSearch),
        Some(s) => match replaced(h, c.content@, s@) {
            Some(t) => Ok(t),
            None => Err(Failure::NotFound(c.content@)),
        },
    }
}

/// The fragments undone from the last to the first.
pub open spec fn unmodify_spec(h: Seq<char>, cs: Seq<Change>) -> Result<Seq<char>, Failure>
    decreases cs.len(),
{
    if cs.len() == 0 {
        Ok(h)
    } else {
        match unstep(h, cs.last()) {
            Ok(x) => unmodify_spec(x, cs.drop_last()),
            Err(f) => Err(f),
        }
    }
}

/// The contents of the fragments, concatenated in order.
pub open spec fn contents_of(cs: Seq<Change>) -> Seq<char>
    decreases cs.len(),
{
    if cs.len() == 0 {
        Seq::empty()
    } else {
        contents_of(cs.drop_last()) + cs.last().content@
    }
}

/// What undoing a rewrite writes back for one fragment: its search text
/// where that is present and not empty, else its content.
pub open spec fn restored_part(c: Change) -> Seq<char> {
    match c.search {
        Some(s) => if s@.len() > 0 {
            s@
        } else {
            c.content@
        },
        None => c.content@,
    }
}

/// The body that undoing a rewrite writes back.
pub open spec fn restored_of(cs: Seq<Change>) -> Seq<char>
    decreases cs.len(),
{
    if cs.len() == 0 {
        Seq::empty()
    } else {
        restored_of(cs.drop_last()) + restored_part(cs.last())
    }
}

/// Replaces what `find_text` stands for in `content` by `replacement`.
pub fn apply_change_to_content(content: &str, find_text: &str, replacement: &str) -> (r: Result<
    String,
    ApplyError,
>)
    ensures
        text_result(r) == match replaced(content@, find_text@, replacement@) {
            Some(t) => Ok(t),
            None => Err(Failure::NotFound(find_text@)),
        },
        r is Ok ==> exists|s: int, e: int|
            0 <= s <= e <= content@.len() && r->Ok_0@ == content@.take(s) + replacement@
                + content@.skip(e),
{
    match replace_located(content, find_text, replacement) {
        Some(t) => Ok(t),
        None => Err(ApplyError::NotFound { needle: find_text.to_owned() }),
    }
}

/// Applies the fragments of a `Modify` instruction in order, each to the
/// text that the previous ones produced.
pub fn apply_modification_changes(original: &str, changes: &[Change]) -> (r: Result<
    String,
    ApplyError,
>)
    ensures
        text_result(r) == modify_spec(original@, changes@),
{
    let mut content = original.to_owned();
    let mut i: usize = 0;
    assert(changes@.take(0) =~= Seq::<Change>::empty());
    while i < changes.len()
        invariant
            i <= changes@.len(),
            modify_spec(original@, changes@.take(i as int)) == Ok::<Seq<char>, Failure>(content@),
        decreases changes@.len() - i,
    {
        let chg = &changes[i];
        let ghost cur = changes@.take(i + 1);
        assert(cur.drop_last() =~= changes@.take(i as int));
        assert(cur.last() == changes@[i as int]);
        match &chg.search {
            None => {
                proof {
                    lemma_modify_failure_stays(original@, changes@, i + 1);
                }
                return Err(ApplyError::MissingSearch);
            },
            Some(s) => {
                match apply_change_to_content(content.as_str(), s.as_str(), chg.content.as_str()) {
                    Ok(t) => {
                        content = t;
                    },
                    Err(e) => {
                        proof {
                            lemma_modify_failure_stays(original@, changes@, i + 1);
                        }
                        return Err(e);
                    },
                }
            },
        }
        i = i + 1;
    }
    assert(changes@.take(changes@.len() as int) =~= changes@);
    Ok(content)
}

/// Undoes the fragments of a `Modify` instruction, from the last to the
/// first: each one's content is located and replaced by its search text.
pub fn reverse_modification_changes(current: &str, changes: &[Change]) -> (r: Result<
    String,
    ApplyError,
>)
    ensures
        text_result(r) == unmodify_spec(current@, changes@),
{
    let mut content = current.to_owned();
    let mut i: usize = changes.len();
    assert(changes@.take(changes@.len() as int) =~= changes@);
    while i > 0
        invariant
            i <= changes@.len(),
            unmodify_spec(current@, changes@) == unmodify_spec(content@, changes@.take(i as int)),
        decreases i,
    {
        let chg = &changes[i - 1];
        let ghost cur = changes@.take(i as int);
        assert(cur.drop_last() =~= changes@.take(i - 1));
        assert(cur.last() == changes@[i - 1]);
        match &chg.search {
            None => {
                return Err(ApplyError::MissingSearch);
            },
            Some(s) => {
                match apply_change_to_content(content.as_str(), chg.content.as_str(), s.as_str()) {
                    Ok(t) => {
                        content = t;
                    },
                    Err(e) => {
                        return Err(e);
                    },
                }
            },
        }
        i = i - 1;
    }
    assert(changes@.take(0) =~= Seq::<Change>::empty());
    Ok(content)
}

/// The contents of all fragments, concatenated in order.
pub fn aggregate_changes(changes: &[Change]) -> (r: String)
    ensures
        r@ == contents_of(changes@),
{
    let mut out: Vec<char> = Vec::new();
    let mut i: usize = 0;
    assert(changes@.take(0) =~= Seq::<Change>::empty());
    while i < changes.len()
        invariant
            i <= changes@.len(),
            out@ == contents_of(changes@.take(i as int)),
        decreases changes@.len() - i,
    {
        let ghost cur = changes@.take(i + 1);
        assert(cur.drop_last() =~= changes@.take(i as int));
        assert(cur.last() == changes@[i as int]);
        push_all(&mut out, &chars_of(changes[i].content.as_str()));
        i = i + 1;
    }
    assert(changes@.take(changes@.len() as int) =~= changes@);
    string_of(&out)
}

/// The body that undoing a rewrite writes back: for each fragment, its
/// search text where that is present and not empty, else its content.
pub fn restored_body(changes: &[Change]) -> (r: String)
    ensures
        r@ == restored_of(changes@),
{
    let mut out: Vec<char> = Vec::new();
    let mut i: usize = 0;
    assert(changes@.take(0) =~= Seq::<Change>::empty());
    while i < changes.len()
        invariant
            i <= changes@.len(),
            out@ == restored_of(changes@.take(i as int)),
        decreases changes@.len() - i,
    {
        let ghost cur = changes@.take(i + 1);
        assert(cur.drop_last() =~= changes@.take(i as int));
        assert(cur.last() == changes@[i as int]);
        let chg = &changes[i];
        let part = match &chg.search {
            Some(s) => {
                let sc = chars_of(s.as_str());
                if sc.len() > 0 {
                    sc
                } else {
                    chars_of(chg.content.as_str())
                }
            },
            None => chars_of(chg.content.as_str()),
        };
        push_all(&mut out, &part);
        i = i + 1;
    }
    assert(changes@.take(changes@.len() as int) =~= changes@);
    string_of(&out)
}

/// Whether the text is empty or whitespace only.
pub fn is_blank(s: &str) -> (r: bool)
    ensures
        r == (trim(s@).len() == 0),
{
    trimmed(&chars_of(s)).len() == 0
}

/// Whether planning `action` needs the file's current text.
pub open spec fn needs_text(action: Action) -> bool {
    action == Action::Modify
}

pub fn needs_current_text(action: Action) -> (r: bool)
    ensures
        r == needs_text(action),
{
    match action {
        Action::Modify => true,
        _ => false,
    }
}

/// What applying `fc` does, given its resolved path, whether a file is
/// there, and the file's text when it could be read.
pub open spec fn plan_spec(
    fc: FileChange,
    resolved: Seq<char>,
    reverse: bool,
    exists: bool,
    current: Option<Seq<char>>,
) -> Planned {
    let cs = fc.changes@;
    match fc.action {
        Action::Modify => match current {
            None => if exists {
                Planned::Fails(Failure::ReadFailed(resolved))
            } else {
                Planned::Fails(Failure::MissingFile(resolved))
            },
            Some(h) => match if reverse {
                unmodify_spec(h, cs)
            } else {
                modify_spec(h, cs)
            } {
                Ok(t) => Planned::Write(resolved, t, false),
                Err(f) => Planned::Fails(f),
            },
        },
        Action::Rewrite => if reverse {
            Planned::Write(resolved, restored_of(cs), false)
        } else if trim(contents_of(cs)).len() == 0 {
            Planned::Fails(Failure::EmptyRewrite)
        } else {
            Planned::Write(resolved, contents_of(cs), false)
        },
        Action::Create => if reverse {
            if exists {
                Planned::Remove(resolved)
            } else {
                Planned::Keep
            }
        } else if exists {
            Planned::Fails(Failure::AlreadyExists(resolved))
        } else {
            Planned::Write(resolved, contents_of(cs), true)
        },
        Action::Delete => if reverse {
            Planned::Write(resolved, contents_of(cs), true)
        } else if exists {
            Planned::Remove(resolved)
        } else {
            Planned::Fails(Failure::MissingFile(resolved))
        },
    }
}

pub open spec fn opt_view(o: Option<String>) -> Option<Seq<char>> {
    match o {
        Some(s) => Some(s@),
        None => None,
    }
}

/// Decides what applying `fc` (forward, or in reverse to undo it) does to
/// the file at `resolved`. `exists` tells whether a file is there, and
/// `current` holds its text when `Modify` needs it and it could be read.
pub fn plan_file_change(
    fc: &FileChange,
    resolved: &str,
    reverse: bool,
    exists: bool,
    current: Option<String>,
) -> (r: Result<FsOp, ApplyError>)
    ensures
        plan_view(r) == plan_spec(*fc, resolved@, reverse, exists, opt_view(current)),
{
    let path = resolved.to_owned();
    match fc.action {
        Action::Modify => match current {
            None => if exists {
                Err(ApplyError::ReadFailed { path })
            } else {
                Err(ApplyError::MissingFile { path })
            },
            Some(h) => {
                let t = if reverse {
                    reverse_modification_changes(h.as_str(), fc.changes.as_slice())
                } else {
                    apply_modification_changes(h.as_str(), fc.changes.as_slice())
                };
                match t {
                    Ok(contents) => Ok(FsOp::Write { path, contents, create_parents: false }),
                    Err(e) => Err(e),
                }
            },
        },
        Action::Rewrite => if reverse {
            Ok(FsOp::Write { path, contents: restored_body(fc.changes.as_slice()), create_parents: false })
        } else {
            let body = aggregate_changes(fc.changes.as_slice());
            if is_blank(body.as_str()) {
                Err(ApplyError::EmptyRewrite)
            } else {
                Ok(FsOp::Write { path, contents: body, create_parents: false })
            }
        },
        Action::Create => if reverse {
            if exists {
                Ok(FsOp::Remove { path })
            } else {
                Ok(FsOp::Keep)
            }
        } else if exists {
            Err(ApplyError::AlreadyExists { path })
        } else {
            Ok(FsOp::Write { path, contents: aggregate_changes(fc.changes.as_slice()), create_parents: true })
        },
        Action::Delete => if reverse {
            Ok(FsOp::Write { path, contents: aggregate_changes(fc.changes.as_slice()), create_parents: true })
        } else if exists {
            Ok(FsOp::Remove { path })
        } else {
            Err(ApplyError::MissingFile { path })
        },
    }
}

// ---------------------------------------------------------------------------
// Laws

/// Fragment `c` applied to `x` is undone exactly: the span its search text
/// stands for holds that text verbatim, and once the content is written
/// there, the span the content stands for is the one it was written to.
pub open spec fn undoes_cleanly(x: Seq<char>, c: Change) -> bool {
    match c.search {
        None => false,
        Some(s) => match span_of(x, s@) {
            None => false,
            Some(m) => {
                let r = c.content@;
                &&& 0 <= m.0 <= m.1 <= x.len()
                &&& x.subrange(m.0, m.1) == s@
                &&& span_of(splice(x, m.0, m.1, r), r) == Some((m.0, m.0 + r.len()))
            },
        },
    }
}

/// Every fragment of `cs`, applied after the ones before it, is undone
/// exactly.
pub open spec fn undoes_cleanly_all(h: Seq<char>, cs: Seq<Change>) -> bool
    decreases cs.len(),
{
    if cs.len() == 0 {
        true
    } else {
        undoes_cleanly_all(h, cs.drop_last()) && match modify_spec(h, cs.drop_last()) {
            Ok(x) => undoes_cleanly(x, cs.last()),
            Err(_) => false,
        }
    }
}

proof fn lemma_step_round_trip(x: Seq<char>, c: Change)
    requires
        undoes_cleanly(x, c),
    ensures
        step(x, c) is Ok,
        unstep(step(x, c)->Ok_0, c) == Ok::<Seq<char>, Failure>(x),
{
    let s = c.search->0@;
    let r = c.content@;
    let m = span_of(x, s)->0;
    let y = splice(x, m.0, m.1, r);
    assert(step(x, c) == Ok::<Seq<char>, Failure>(y));
    assert(y.take(m.0) =~= x.take(m.0));
    assert(y.skip(m.0 + r.len()) =~= x.skip(m.1));
    assert(splice(y, m.0, m.0 + r.len(), s) =~= x);
}

/// Applying a `Modify` instruction and then undoing it gives back the
/// original text, when each fragment is undone exactly.
pub proof fn lemma_modify_round_trip(h: Seq<char>, cs: Seq<Change>)
    requires
        undoes_cleanly_all(h, cs),
    ensures
        modify_spec(h, cs) is Ok,
        unmodify_spec(modify_spec(h, cs)->Ok_0, cs) == Ok::<Seq<char>, Failure>(h),
    decreases cs.len(),
{
    if cs.len() > 0 {
        let rest = cs.drop_last();
        let c = cs.last();
        lemma_modify_round_trip(h, rest);
        let x = modify_spec(h, rest)->Ok_0;
        lemma_step_round_trip(x, c);
    }
}

/// Planning a `Modify` forward on a file's text, then planning it in
/// reverse on the text written, writes back the original text exactly,
/// when each fragment is undone exactly.
pub proof fn lemma_plan_round_trip(fc: FileChange, resolved: Seq<char>, h: Seq<char>)
    requires
        fc.action == Action::Modify,
        undoes_cleanly_all(h, fc.changes@),
    ensures
        match plan_spec(fc, resolved, false, true, Some(h)) {
            Planned::Write(p, t, parents) => p == resolved && !parents && plan_spec(
                fc,
                resolved,
                true,
                true,
                Some(t),
            ) == Planned::Write(resolved, h, false),
            _ => false,
        },
{
    lemma_modify_round_trip(h, fc.changes@);
}

/// Adding a fragment to a `Modify` instruction applies it to the text the
/// fragments before it produced, as `apply_change_to_content` would; a
/// failure of the earlier fragments stays the outcome.
pub proof fn lemma_fragment_applies_to_previous_output(h: Seq<char>, cs: Seq<Change>, c: Change)
    ensures
        modify_spec(h, cs.push(c)) == match modify_spec(h, cs) {
            Ok(x) => match c.search {
                None => Err(Failure::MissingSearch),
                Some(s) => match replaced(x, s@, c.content@) {
                    Some(t) => Ok(t),
                    None => Err(Failure::NotFound(s@)),
                },
            },
            Err(f) => Err(f),
        },
{
    assert(cs.push(c).drop_last() =~= cs);
}

/// The fragments of a `Modify` instruction are applied one after the other:
/// the second is applied to the text that the first produced.
pub proof fn lemma_fragments_apply_in_sequence(h: Seq<char>, c1: Change, c2: Change)
    ensures
        modify_spec(h, seq![c1, c2]) == match step(h, c1) {
            Ok(x) => step(x, c2),
            Err(f) => Err(f),
        },
{
    let cs = seq![c1, c2];
    let one = seq![c1];
    assert(cs.drop_last() =~= one);
    assert(cs.last() == c2);
    assert(one.drop_last() =~= Seq::<Change>::empty());
    assert(one.last() == c1);
    assert(modify_spec(h, Seq::<Change>::empty()) == Ok::<Seq<char>, Failure>(h));
    assert(modify_spec(h, one) == step(h, c1));
}

/// `Create` on a path that exists fails, and `Delete` on a path that does
/// not exist fails; neither leaves anything to do to the file system.
pub proof fn lemma_create_delete_guards(
    fc: FileChange,
    resolved: Seq<char>,
    exists: bool,
    current: Option<Seq<char>>,
)
    ensures
        fc.action == Action::Create && exists ==> plan_spec(fc, resolved, false, exists, current)
            == Planned::Fails(Failure::AlreadyExists(resolved)),
        fc.action == Action::Delete && !exists ==> plan_spec(fc, resolved, false, exists, current)
            == Planned::Fails(Failure::MissingFile(resolved)),
{
}

proof fn lemma_empty_contents(cs: Seq<Change>)
    requires
        forall|k: int| 0 <= k < cs.len() ==> (#[trigger] cs[k]).content@.len() == 0,
    ensures
        contents_of(cs).len() == 0,
    decreases cs.len(),
{
    if cs.len() > 0 {
        let rest = cs.drop_last();
        assert forall|k: int| 0 <= k < rest.len() implies (#[trigger] rest[k]).content@.len() == 0 by {
            assert(rest[k] == cs[k]);
        }
        lemma_empty_contents(rest);
    }
}

/// A `Rewrite` whose fragments all have empty content fails, so the file
/// keeps its text.
pub proof fn lemma_empty_rewrite_fails(
    fc: FileChange,
    resolved: Seq<char>,
    exists: bool,
    current: Option<Seq<char>>,
)
    requires
        fc.action == Action::Rewrite,
        forall|k: int| 0 <= k < fc.changes@.len() ==> (#[trigger] fc.changes@[k]).content@.len() == 0,
    ensures
        plan_spec(fc, resolved, false, exists, current) == Planned::Fails(Failure::EmptyRewrite),
{
    lemma_empty_contents(fc.changes@);
    assert(trim(contents_of(fc.changes@)) =~= Seq::<char>::empty());
}

} // verus!

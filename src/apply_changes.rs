//! Path resolution and the batch report: every instruction's outcome, in
//! document order, split into successes and errors, with each error's chain
//! of messages.

use vstd::prelude::*;
use crate::apply_file_change::ApplyError;
use crate::change_types::{FileChange, FileError, FileSuccess};
use crate::text::{chars_of, push_all, string_of};

verus! {

/// Where a path as written in the protocol points: a path that is not
/// relative as it is, a relative one under `project_root` when there is one.
pub open spec fn resolved_spec(path: Seq<char>, is_relative: bool, project_root: Option<Seq<char>>) -> Seq<char> {
    if !is_relative {
        path
    } else {
        match project_root {
            None => path,
            Some(root) => if root.len() > 0 && (root.last() == '/' || root.last() == '\\') {
                root + path
            } else {
                root + seq!['/'] + path
            },
        }
    }
}

/// Resolves a protocol path against the project root. `is_relative` is the
/// platform's verdict on the path (`Path::is_relative`).
pub fn resolve_file_path(path: &str, is_relative: bool, project_root: Option<&str>) -> (r: String)
    ensures
        r@ == resolved_spec(
            path@,
            is_relative,
            match project_root {
                Some(p) => Some(p@),
                None => None,
            },
        ),
{
    if !is_relative {
        return path.to_owned();
    }
    match project_root {
        None => path.to_owned(),
        Some(root) => {
            let mut out = chars_of(root);
            if !(out.len() > 0 && (out[out.len() - 1] == '/' || out[out.len() - 1] == '\\')) {
                out.push('/');
            }
            push_all(&mut out, &chars_of(path));
            string_of(&out)
        },
    }
}

/// The messages that describe an error, outermost first.
pub open spec fn error_messages_spec(e: ApplyError) -> Seq<Seq<char>> {
    match e {
        ApplyError::MissingSearch => seq!["Missing <search> block in modify action"@],
        ApplyError::NotFound { needle } => seq!["Search block not found: "@ + needle@],
        ApplyError::EmptyRewrite => seq![
            "Malformed plan protocol: rewritten file is empty. Change reverted."@,
        ],
        ApplyError::AlreadyExists { path } => seq!["File already exists: "@ + path@],
        ApplyError::MissingFile { path } => seq!["File does not exist: "@ + path@],
        ApplyError::ReadFailed { path } => seq!["Could not read file: "@ + path@],
    }
}

pub open spec fn texts(v: Seq<String>) -> Seq<Seq<char>> {
    v.map_values(|s: String| s@)
}

fn joined_text(a: &str, b: &str) -> (r: String)
    ensures
        r@ == a@ + b@,
{
    let mut out = chars_of(a);
    push_all(&mut out, &chars_of(b));
    string_of(&out)
}

/// The messages that describe an error, outermost first.
pub fn error_messages(e: &ApplyError) -> (r: Vec<String>)
    ensures
        texts(r@) == error_messages_spec(*e),
{
    let m = match e {
        ApplyError::MissingSearch => "Missing <search> block in modify action".to_owned(),
        ApplyError::NotFound { needle } => joined_text("Search block not found: ", needle.as_str()),
        ApplyError::EmptyRewrite => "Malformed plan protocol: rewritten file is empty. Change reverted.".to_owned(),
        ApplyError::AlreadyExists { path } => joined_text("File already exists: ", path.as_str()),
        ApplyError::MissingFile { path } => joined_text("File does not exist: ", path.as_str()),
        ApplyError::ReadFailed { path } => joined_text("Could not read file: ", path.as_str()),
    };
    let mut r: Vec<String> = Vec::new();
    r.push(m);
    assert(texts(r@) =~= seq![m@]);
    r
}

/// The first message of an error record: which file it is about, as
/// written and as resolved.
pub open spec fn context_message(path: Seq<char>, resolved: Seq<char>) -> Seq<char> {
    "While applying change to '"@ + path + "' ("@ + resolved + ")"@
}

/// The paths of the instructions that succeeded, in order.
pub open spec fn success_paths(cs: Seq<FileChange>, rs: Seq<Result<(), Vec<String>>>) -> Seq<Seq<char>>
    decreases cs.len(),
{
    if cs.len() == 0 || rs.len() != cs.len() {
        Seq::empty()
    } else if rs.last() is Ok {
        success_paths(cs.drop_last(), rs.drop_last()).push(cs.last().path@)
    } else {
        success_paths(cs.drop_last(), rs.drop_last())
    }
}

/// The path and messages of each instruction that failed, in order.
pub open spec fn error_records(
    cs: Seq<FileChange>,
    ps: Seq<String>,
    rs: Seq<Result<(), Vec<String>>>,
) -> Seq<(Seq<char>, Seq<Seq<char>>)>
    decreases cs.len(),
{
    if cs.len() == 0 || rs.len() != cs.len() || ps.len() != cs.len() {
        Seq::empty()
    } else {
        match rs.last() {
            Ok(_) => error_records(cs.drop_last(), ps.drop_last(), rs.drop_last()),
            Err(msgs) => error_records(cs.drop_last(), ps.drop_last(), rs.drop_last()).push(
                (
                    cs.last().path@,
                    seq![context_message(cs.last().path@, ps.last()@)] + texts(msgs@),
                ),
            ),
        }
    }
}

pub open spec fn success_view(v: Seq<FileSuccess>) -> Seq<Seq<char>> {
    v.map_values(|s: FileSuccess| s.path@)
}

pub open spec fn error_view(v: Seq<FileError>) -> Seq<(Seq<char>, Seq<Seq<char>>)> {
    v.map_values(|e: FileError| (e.path@, texts(e.messages@)))
}

/// Splits the outcomes of a batch, one per instruction, into the report's
/// success and error lists, each in document order. Each success carries
/// the message `Success`; each error carries which file it is about, as
/// written and as resolved (`resolved` holds one path per instruction),
/// followed by its own messages.
pub fn collect_outcomes(
    changes: &Vec<FileChange>,
    resolved: &Vec<String>,
    results: Vec<Result<(), Vec<String>>>,
) -> (r: (Vec<FileSuccess>, Vec<FileError>))
    requires
        changes@.len() == results@.len(),
        resolved@.len() == changes@.len(),
    ensures
        success_view(r.0@) == success_paths(changes@, results@),
        forall|k: int| 0 <= k < r.0@.len() ==> texts((#[trigger] r.0@[k]).messages@) == seq![
            "Success"@,
        ],
        error_view(r.1@) == error_records(changes@, resolved@, results@),
{
    let mut oks: Vec<FileSuccess> = Vec::new();
    let mut errs: Vec<FileError> = Vec::new();
    let mut i: usize = 0;
    let ghost rs = results@;
    let mut results = results;
    let mut pending: Vec<Result<(), Vec<String>>> = Vec::new();
    // Take the outcomes in order by reversing them once.
    while results.len() > 0
        invariant
            results@ + pending@.reverse() == rs,
        decreases results@.len(),
    {
        let x = results.pop().unwrap();
        proof {
            assert(pending@.push(x).reverse() =~= seq![x] + pending@.reverse());
        }
        pending.push(x);
        assert(results@ + pending@.reverse() =~= rs);
    }
    assert(pending@.reverse() =~= rs);
    while i < changes.len()
        invariant
            i <= changes@.len() == rs.len() == resolved@.len(),
            pending@.len() + i == rs.len(),
            forall|k: int| 0 <= k < pending@.len() ==> #[trigger] pending@[k] == rs[rs.len() - 1 - k],
            success_view(oks@) == success_paths(changes@.take(i as int), rs.take(i as int)),
            forall|k: int| 0 <= k < oks@.len() ==> texts((#[trigger] oks@[k]).messages@) == seq![
                "Success"@,
            ],
            error_view(errs@) == error_records(
                changes@.take(i as int),
                resolved@.take(i as int),
                rs.take(i as int),
            ),
        decreases changes@.len() - i,
    {
        let x = pending.pop().unwrap();
        assert(x == rs[i as int]);
        let ghost cs1 = changes@.take(i + 1);
        let ghost rs1 = rs.take(i + 1);
        assert(cs1.drop_last() =~= changes@.take(i as int));
        assert(rs1.drop_last() =~= rs.take(i as int));
        assert(cs1.last() == changes@[i as int]);
        assert(rs1.last() == rs[i as int]);
        let ghost ps1 = resolved@.take(i + 1);
        assert(ps1.drop_last() =~= resolved@.take(i as int));
        assert(ps1.last() == resolved@[i as int]);
        let path = &changes[i].path;
        let full = &resolved[i];
        match x {
            Ok(()) => {
                let mut messages: Vec<String> = Vec::new();
                messages.push("Success".to_owned());
                assert(texts(messages@) =~= seq!["Success"@]);
                let ghost before = oks@;
                oks.push(FileSuccess { path: path.clone(), messages });
                assert(success_view(oks@) =~= success_view(before).push(path@));
            },
            Err(msgs) => {
                let mut messages: Vec<String> = Vec::new();
                let head = joined_text("While applying change to '", path.as_str());
                let mid = joined_text(head.as_str(), "' (");
                let with_full = joined_text(mid.as_str(), full.as_str());
                messages.push(joined_text(with_full.as_str(), ")"));
                let mut k: usize = 0;
                while k < msgs.len()
                    invariant
                        k <= msgs@.len(),
                        texts(messages@) == seq![context_message(path@, full@)] + texts(msgs@.take(k as int)),
                    decreases msgs@.len() - k,
                {
                    let ghost before = messages@;
                    let m = msgs[k].clone();
                    messages.push(m);
                    proof {
                        assert(msgs@.take(k + 1) =~= msgs@.take(k as int).push(msgs@[k as int]));
                        assert(texts(msgs@.take(k + 1)) =~= texts(msgs@.take(k as int)).push(msgs@[k as int]@));
                        assert(texts(messages@) =~= texts(before).push(m@));
                    }
                    k = k + 1;
                    assert(texts(messages@) =~= seq![context_message(path@, full@)] + texts(msgs@.take(k as int)));
                }
                assert(msgs@.take(msgs@.len() as int) =~= msgs@);
                let ghost before = errs@;
                errs.push(FileError { path: path.clone(), messages });
                assert(error_view(errs@) =~= error_view(before).push(
                    (path@, seq![context_message(path@, full@)] + texts(msgs@)),
                ));
            },
        }
        i = i + 1;
    }
    assert(changes@.take(changes@.len() as int) =~= changes@);
    assert(rs.take(rs.len() as int) =~= rs);
    assert(resolved@.take(resolved@.len() as int) =~= resolved@);
    (oks, errs)
}

/// Every instruction of a batch is reported exactly once: as a success when
/// its outcome is `Ok`, as an error otherwise.
pub proof fn lemma_each_outcome_reported_once(
    cs: Seq<FileChange>,
    ps: Seq<String>,
    rs: Seq<Result<(), Vec<String>>>,
)
    requires
        cs.len() == rs.len(),
        ps.len() == cs.len(),
    ensures
        success_paths(cs, rs).len() + error_records(cs, ps, rs).len() == cs.len(),
        success_paths(cs, rs).len() == rs.filter(|r: Result<(), Vec<String>>| r is Ok).len(),
    decreases cs.len(),
{
    if cs.len() > 0 {
        lemma_each_outcome_reported_once(cs.drop_last(), ps.drop_last(), rs.drop_last());
        let f = |r: Result<(), Vec<String>>| r is Ok;
        assert(rs.drop_last().push(rs.last()) =~= rs);
        rs.drop_last().lemma_filter_push(rs.last(), f);
    }
}

} // verus!

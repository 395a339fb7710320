//! The heading dialect: `### File`, `### Action` and `#### Change` headings,
//! bold field labels, and fenced code blocks for search and content text.
//! The format has only opening markers, so each new heading closes what is
//! open.

use vstd::prelude::*;
use crate::change_types::{Action, Change, FileChange};
use crate::protocol::{
    ChangeV, FileV, PFail, ParseError, action_of, change_view, file_view, doc_view, has_prefix,
    change_stripped, changes_stripped, doc_stripped, is_stripped,
    join_all, join_lines, lines_of, parse_action, starts_with, strip_elision, strip_elision_spec,
};
use crate::matcher::{line_bounds, line_bounds_of, bounds_view, same_chars};
use crate::text::{chars_of, push_all, slice_of, string_of, trim, trimmed, ws_trail_start, is_ws_char};

verus! {

/// Which field the lines being read belong to.
#[derive(Debug, Clone, Copy, PartialEq, Eq, Structural)]
pub enum Field {
    Idle,
    Description,
    Search,
    Content,
}

/// The parser's state over plain values.
pub struct HState {
    pub files: Seq<FileV>,
    pub path: Option<Seq<char>>,
    pub action: Option<Action>,
    pub changes: Seq<ChangeV>,
    pub desc: Seq<char>,
    pub search: Option<Seq<char>>,
    pub content: Seq<char>,
    pub field: Field,
    pub in_code: bool,
    pub code_field: Field,
    pub code: Seq<Seq<char>>,
}

pub open spec fn h_init() -> HState {
    HState {
        files: Seq::empty(),
        path: None,
        action: None,
        changes: Seq::empty(),
        desc: Seq::empty(),
        search: None,
        content: Seq::empty(),
        field: Field::Idle,
        in_code: false,
        code_field: Field::Idle,
        code: Seq::empty(),
    }
}

/// Closes the open change, if anything was read for it.
pub open spec fn h_flush_change(st: HState) -> HState {
    if st.desc.len() > 0 || st.search is Some || st.content.len() > 0 {
        HState {
            changes: st.changes.push(
                ChangeV { description: trim(st.desc), search: st.search, content: trim(st.content) },
            ),
            desc: Seq::empty(),
            search: None,
            content: Seq::empty(),
            field: Field::Idle,
            ..st
        }
    } else {
        st
    }
}

/// Closes the open file block, if a path was read for it.
pub open spec fn h_flush_file(st: HState) -> Result<HState, PFail> {
    match st.path {
        None => Ok(st),
        Some(p) => match st.action {
            None => Err(PFail::MissingAction(p)),
            Some(a) => Ok(
                HState {
                    files: st.files.push(FileV { path: p, action: a, changes: st.changes }),
                    path: None,
                    action: None,
                    changes: Seq::empty(),
                    ..st
                },
            ),
        },
    }
}

/// `s` without trailing whitespace.
pub open spec fn trim_end(s: Seq<char>) -> Seq<char> {
    s.take(ws_trail_start(s, s.len() as int))
}

/// One line read in state `st`.
pub open spec fn h_step(st: HState, raw: Seq<char>) -> Result<HState, PFail> {
    let line = trim_end(raw);
    if st.in_code {
        if starts_with(line, "```"@) {
            let code = strip_elision_spec(join_lines(st.code));
            let closed = HState {
                in_code: false,
                code_field: Field::Idle,
                code: Seq::empty(),
                field: Field::Idle,
                ..st
            };
            if st.code_field == Field::Search {
                Ok(HState { search: Some(code), ..closed })
            } else if st.code_field == Field::Content {
                Ok(HState { content: code, ..closed })
            } else {
                Ok(closed)
            }
        } else {
            Ok(HState { code: st.code.push(line), ..st })
        }
    } else if trim(line).len() == 0 || trim(line) == "---"@ {
        Ok(st)
    } else if starts_with(line, "### File "@) {
        match h_flush_file(h_flush_change(st)) {
            Ok(s) => Ok(HState { path: Some(trim(line.skip("### File "@.len() as int))), ..s }),
            Err(e) => Err(e),
        }
    } else if starts_with(line, "### Action "@) {
        let token = trim(line.skip("### Action "@.len() as int));
        match action_of(token) {
            Some(a) => Ok(HState { action: Some(a), ..st }),
            None => Err(PFail::UnknownAction(token)),
        }
    } else if starts_with(line, "#### Change"@) {
        Ok(h_flush_change(st))
    } else if starts_with(line, "**Description**:"@) {
        Ok(
            HState {
                field: Field::Description,
                desc: st.desc + trim(line.skip("**Description**:"@.len() as int)),
                ..st
            },
        )
    } else if starts_with(line, "**Search**:"@) {
        Ok(HState { field: Field::Search, ..st })
    } else if starts_with(line, "**Content**:"@) {
        Ok(HState { field: Field::Content, ..st })
    } else if starts_with(line, "```"@) {
        Ok(HState { in_code: true, code_field: st.field, code: Seq::empty(), ..st })
    } else if st.field == Field::Description {
        if st.desc.len() > 0 {
            Ok(HState { desc: st.desc + seq!['\n'] + line, ..st })
        } else {
            Ok(HState { desc: line, ..st })
        }
    } else {
        Ok(st)
    }
}

/// The lines from `k` on read from state `st`, then the open change and
/// file closed.
pub open spec fn h_run(ls: Seq<Seq<char>>, k: int, st: HState) -> Result<Seq<FileV>, PFail>
    decreases ls.len() - k,
{
    if k < 0 || k >= ls.len() {
        match h_flush_file(h_flush_change(st)) {
            Ok(s) => Ok(s.files),
            Err(e) => Err(e),
        }
    } else {
        match h_step(st, ls[k]) {
            Ok(s) => h_run(ls, k + 1, s),
            Err(e) => Err(e),
        }
    }
}

/// A document in the heading dialect, read line by line.
pub open spec fn parse_headings_spec(text: Seq<char>) -> Result<Seq<FileV>, PFail> {
    h_run(lines_of(text), 0, h_init())
}

struct HeadingState {
    files: Vec<FileChange>,
    path: Option<Vec<char>>,
    action: Option<Action>,
    changes: Vec<Change>,
    desc: Vec<char>,
    search: Option<Vec<char>>,
    content: Vec<char>,
    field: Field,
    in_code: bool,
    code_field: Field,
    code: Vec<Vec<char>>,
}

pub open spec fn opt_chars(o: Option<Vec<char>>) -> Option<Seq<char>> {
    match o {
        Some(v) => Some(v@),
        None => None,
    }
}

impl HeadingState {
    spec fn view(&self) -> HState {
        HState {
            files: doc_view(self.files@),
            path: opt_chars(self.path),
            action: self.action,
            changes: self.changes@.map_values(|c: Change| change_view(c)),
            desc: self.desc@,
            search: opt_chars(self.search),
            content: self.content@,
            field: self.field,
            in_code: self.in_code,
            code_field: self.code_field,
            code: self.code@.map_values(|x: Vec<char>| x@),
        }
    }
}

fn new_state() -> (r: HeadingState)
    ensures
        r.view() == h_init(),
{
    let r = HeadingState {
        files: Vec::new(),
        path: None,
        action: None,
        changes: Vec::new(),
        desc: Vec::new(),
        search: None,
        content: Vec::new(),
        field: Field::Idle,
        in_code: false,
        code_field: Field::Idle,
        code: Vec::new(),
    };
    assert(r.view().files =~= Seq::<FileV>::empty());
    assert(r.view().changes =~= Seq::<ChangeV>::empty());
    assert(r.view().code =~= Seq::<Seq<char>>::empty());
    r
}

pub fn make_change(desc: &Vec<char>, search: Option<Vec<char>>, content: &Vec<char>) -> (r: Change)
    ensures
        change_view(r) == (ChangeV {
            description: trim(desc@),
            search: opt_chars(search),
            content: trim(content@),
        }),
{
    let s = match search {
        Some(v) => Some(string_of(&v)),
        None => None,
    };
    Change {
        description: string_of(&trimmed(desc)),
        search: s,
        content: string_of(&trimmed(content)),
    }
}

fn flush_change(st: HeadingState) -> (r: HeadingState)
    ensures
        r.view() == h_flush_change(st.view()),
{
    if st.desc.len() > 0 || st.search.is_some() || st.content.len() > 0 {
        let c = make_change(&st.desc, st.search, &st.content);
        let mut changes = st.changes;
        let ghost before = changes@;
        changes.push(c);
        assert(changes@.map_values(|c: Change| change_view(c)) =~= before.map_values(
            |c: Change| change_view(c),
        ).push(change_view(c)));
        HeadingState {
            changes,
            desc: Vec::new(),
            search: None,
            content: Vec::new(),
            field: Field::Idle,
            ..st
        }
    } else {
        st
    }
}

fn flush_file(st: HeadingState) -> (r: Result<HeadingState, ParseError>)
    ensures
        match r {
            Ok(s) => h_flush_file(st.view()) == Ok::<HState, PFail>(s.view()),
            Err(e) => h_flush_file(st.view()) == Err::<HState, PFail>(e.fail()),
        },
{
    match st.path {
        None => Ok(HeadingState { path: None, ..st }),
        Some(p) => match st.action {
            None => Err(ParseError::MissingAction { path: string_of(&p) }),
            Some(a) => {
                let fc = FileChange { path: string_of(&p), action: a, changes: st.changes };
                let mut files = st.files;
                let ghost before = files@;
                files.push(fc);
                assert(doc_view(files@) =~= doc_view(before).push(file_view(fc)));
                let r = HeadingState { files, path: None, action: None, changes: Vec::new(), ..st };
                assert(r.view().changes =~= Seq::<ChangeV>::empty());
                Ok(r)
            },
        },
    }
}

fn step(st: HeadingState, raw: &Vec<char>) -> (r: Result<HeadingState, ParseError>)
    ensures
        match r {
            Ok(s) => h_step(st.view(), raw@) == Ok::<HState, PFail>(s.view()),
            Err(e) => h_step(st.view(), raw@) == Err::<HState, PFail>(e.fail()),
        },
{
    let mut end: usize = raw.len();
    while end > 0 && is_ws_char(raw[end - 1])
        invariant
            end <= raw@.len(),
            ws_trail_start(raw@, raw@.len() as int) == ws_trail_start(raw@, end as int),
        decreases end,
    {
        end = end - 1;
    }
    let line = slice_of(raw, 0, end);
    assert(line@ =~= trim_end(raw@));
    let ghost sv = st.view();
    let fence = chars_of("```");
    if st.in_code {
        if has_prefix(&line, &fence) {
            let joined = join_all(&st.code);
            let code = strip_elision(&joined);
            let cf = st.code_field;
            let closed = HeadingState {
                in_code: false,
                code_field: Field::Idle,
                code: Vec::new(),
                field: Field::Idle,
                ..st
            };
            assert(closed.view().code =~= Seq::<Seq<char>>::empty());
            if cf == Field::Search {
                return Ok(HeadingState { search: Some(code), ..closed });
            } else if cf == Field::Content {
                return Ok(HeadingState { content: code, ..closed });
            } else {
                return Ok(closed);
            }
        } else {
            let mut code = st.code;
            let ghost before = code@;
            code.push(line);
            assert(code@.map_values(|x: Vec<char>| x@) =~= before.map_values(|x: Vec<char>| x@).push(
                trim_end(raw@),
            ));
            return Ok(HeadingState { code, ..st });
        }
    }
    let t = trimmed(&line);
    if t.len() == 0 || same_chars(&t, &chars_of("---")) {
        return Ok(st);
    }
    let file_marker = chars_of("### File ");
    let action_marker = chars_of("### Action ");
    let desc_marker = chars_of("**Description**:");
    if has_prefix(&line, &file_marker) {
        let flushed = flush_change(st);
        match flush_file(flushed) {
            Ok(s) => {
                let rest = slice_of(&line, file_marker.len(), line.len());
                assert(rest@ =~= line@.skip("### File "@.len() as int));
                Ok(HeadingState { path: Some(trimmed(&rest)), ..s })
            },
            Err(e) => Err(e),
        }
    } else if has_prefix(&line, &action_marker) {
        let rest = slice_of(&line, action_marker.len(), line.len());
        assert(rest@ =~= line@.skip("### Action "@.len() as int));
        let token = trimmed(&rest);
        match parse_action(&token) {
            Some(a) => {
                let r = HeadingState { action: Some(a), ..st };
                assert(h_step(sv, raw@) == Ok::<HState, PFail>(r.view())) by { assert(sv.path == r.view().path); };
                Ok(r)
            },
            None => Err(ParseError::UnknownAction { token: string_of(&token) }),
        }
    } else if has_prefix(&line, &chars_of("#### Change")) {
        Ok(flush_change(st))
    } else if has_prefix(&line, &desc_marker) {
        let rest = slice_of(&line, desc_marker.len(), line.len());
        assert(rest@ =~= line@.skip("**Description**:"@.len() as int));
        let mut desc = st.desc;
        push_all(&mut desc, &trimmed(&rest));
        let r = HeadingState { field: Field::Description, desc, ..st };
        assert(h_step(sv, raw@) == Ok::<HState, PFail>(r.view()));
        Ok(r)
    } else if has_prefix(&line, &chars_of("**Search**:")) {
        let r = HeadingState { field: Field::Search, ..st };
        assert(h_step(sv, raw@) == Ok::<HState, PFail>(r.view()));
        Ok(r)
    } else if has_prefix(&line, &chars_of("**Content**:")) {
        let r = HeadingState { field: Field::Content, ..st };
        assert(h_step(sv, raw@) == Ok::<HState, PFail>(r.view()));
        Ok(r)
    } else if has_prefix(&line, &fence) {
        let r = HeadingState { in_code: true, code_field: st.field, code: Vec::new(), ..st };
        assert(r.view().code =~= Seq::<Seq<char>>::empty());
        Ok(r)
    } else if st.field == Field::Description {
        let mut desc = st.desc;
        let ghost before = desc@;
        if desc.len() > 0 {
            desc.push('\n');
        }
        push_all(&mut desc, &line);
        assert(before.len() == 0 ==> desc@ =~= line@);
        assert(before.len() > 0 ==> desc@ =~= before + seq!['\n'] + line@);
        let r = HeadingState { desc, ..st };
        assert(h_step(sv, raw@) == Ok::<HState, PFail>(r.view()));
        Ok(r)
    } else {
        assert(h_step(sv, raw@) == Ok::<HState, PFail>(st.view()));
        Ok(st)
    }
}

/// Parses a document in the heading dialect.
pub fn parse_headings(text: &Vec<char>) -> (r: Result<Vec<FileChange>, ParseError>)
    ensures
        crate::protocol::parsed_view(r) == parse_headings_spec(text@),
{
    let b = line_bounds_of(text);
    let ghost ls = lines_of(text@);
    let mut st = new_state();
    let mut k: usize = 0;
    while k < b.len()
        invariant
            k <= b@.len(),
            ls == lines_of(text@),
            ls.len() == b@.len(),
            bounds_view(b@) == line_bounds(text@),
            forall|q: int| #![trigger b@[q]] 0 <= q < b@.len() ==> b@[q].0 <= b@[q].1 && b@[q].1 <= text@.len(),
            h_run(ls, 0, h_init()) == h_run(ls, k as int, st.view()),
        decreases b@.len() - k,
    {
        let (lo, hi) = b[k];
        assert(bounds_view(b@)[k as int] == line_bounds(text@)[k as int]);
        let line = slice_of(text, lo, hi);
        assert(line@ == ls[k as int]);
        match step(st, &line) {
            Ok(s) => {
                st = s;
            },
            Err(e) => {
                return Err(e);
            },
        }
        k = k + 1;
    }
    let flushed = flush_change(st);
    match flush_file(flushed) {
        Ok(s) => Ok(s.files),
        Err(e) => Err(e),
    }
}

pub open spec fn h_inv(st: HState) -> bool {
    &&& doc_stripped(st.files)
    &&& changes_stripped(st.changes)
    &&& (st.search is None || is_stripped(st.search->0))
    &&& (st.content.len() == 0 || is_stripped(st.content))
}

proof fn lemma_h_flush_change_keeps(st: HState)
    requires
        h_inv(st),
    ensures
        h_inv(h_flush_change(st)),
{
    if st.desc.len() > 0 || st.search is Some || st.content.len() > 0 {
        let c = ChangeV { description: trim(st.desc), search: st.search, content: trim(st.content) };
        if st.content.len() > 0 {
            let raw = choose|raw: Seq<char>| st.content == #[trigger] strip_elision_spec(raw);
            assert(c.content == trim(strip_elision_spec(raw)));
        } else {
            assert(trim(st.content) =~= Seq::<char>::empty());
        }
        assert(change_stripped(c));
        let cs = st.changes.push(c);
        assert forall|j: int| 0 <= j < cs.len() implies change_stripped(#[trigger] cs[j]) by {
            if j < st.changes.len() {
                assert(cs[j] == st.changes[j]);
            }
        }
    }
}

proof fn lemma_h_flush_file_keeps(st: HState)
    requires
        h_inv(st),
        h_flush_file(st) is Ok,
    ensures
        h_inv(h_flush_file(st)->Ok_0),
{
    if st.path is Some {
        let f = FileV { path: st.path->0, action: st.action->0, changes: st.changes };
        let fs = st.files.push(f);
        assert forall|i: int| 0 <= i < fs.len() implies changes_stripped(#[trigger] fs[i].changes) by {
            if i < st.files.len() {
                assert(fs[i] == st.files[i]);
            }
        }
        assert(changes_stripped(Seq::<ChangeV>::empty()));
    }
}

proof fn lemma_h_step_keeps(st: HState, raw: Seq<char>)
    requires
        h_inv(st),
        h_step(st, raw) is Ok,
    ensures
        h_inv(h_step(st, raw)->Ok_0),
{
    let line = trim_end(raw);
    if st.in_code {
        if starts_with(line, "```"@) {
            let code = strip_elision_spec(join_lines(st.code));
            assert(is_stripped(code));
        }
    } else if trim(line).len() == 0 || trim(line) == "---"@ {
    } else if starts_with(line, "### File "@) {
        lemma_h_flush_change_keeps(st);
        lemma_h_flush_file_keeps(h_flush_change(st));
    } else if starts_with(line, "### Action "@) {
    } else if starts_with(line, "#### Change"@) {
        lemma_h_flush_change_keeps(st);
    }
}

/// A heading-dialect document keeps elision-stripped search and content
/// texts only.
pub proof fn lemma_h_run_stripped(ls: Seq<Seq<char>>, k: int, st: HState)
    requires
        h_inv(st),
        h_run(ls, k, st) is Ok,
    ensures
        doc_stripped(h_run(ls, k, st)->Ok_0),
    decreases ls.len() - k,
{
    if k < 0 || k >= ls.len() {
        lemma_h_flush_change_keeps(st);
        lemma_h_flush_file_keeps(h_flush_change(st));
    } else {
        lemma_h_step_keeps(st, ls[k]);
        lemma_h_run_stripped(ls, k + 1, h_step(st, ls[k])->Ok_0);
    }
}

} // verus!

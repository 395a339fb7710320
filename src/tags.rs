//! The tag dialect: `<file path=".." action="..">` elements holding
//! `<change>` elements, whose `<description>`, `<search>` and `<content>`
//! hold raw text up to their closing tag. Any other element outside a file
//! is skipped together with everything nested in it.

use vstd::prelude::*;
use crate::change_types::{Action, Change, FileChange};
use crate::protocol::{
    ChangeV, FileV, PFail, ParseError, action_of, change_view, file_view, doc_view, parse_action,
    change_stripped, changes_stripped, doc_stripped, is_stripped,
    strip_elision, strip_elision_spec,
};
use crate::matcher::{find_from, occurs_at, occurs_at_exec, find_exact_from, same_chars};
use crate::text::{chars_of, is_ws, is_ws_char, slice_of, string_of, trim, trimmed};
use crate::heading::make_change;

verus! {

/// Where the scanner stands.
#[derive(Debug, Clone, Copy, PartialEq, Eq, Structural)]
pub enum Mode {
    /// Outside any element that matters.
    Top,
    /// Inside an unknown element, this many levels deep.
    Skip(usize),
    /// Inside a file element.
    InFile,
    /// Inside a change element.
    InChange,
}

/// The scanner's state over plain values.
pub struct TState {
    pub files: Seq<FileV>,
    pub mode: Mode,
    pub path: Seq<char>,
    pub action: Action,
    pub changes: Seq<ChangeV>,
    pub desc: Seq<char>,
    pub search: Option<Seq<char>>,
    pub content: Seq<char>,
}

pub open spec fn t_init() -> TState {
    TState {
        files: Seq::empty(),
        mode: Mode::Top,
        path: Seq::empty(),
        action: Action::Modify,
        changes: Seq::empty(),
        desc: Seq::empty(),
        search: None,
        content: Seq::empty(),
    }
}

/// Where a tag's name ends: at whitespace, a `/`, or the end of the tag.
pub open spec fn name_end(body: Seq<char>, k: int) -> int
    decreases body.len() - k,
{
    if k < 0 || k >= body.len() {
        body.len() as int
    } else if is_ws(body[k]) || body[k] == '/' {
        k
    } else {
        name_end(body, k + 1)
    }
}

/// The value of attribute `key` in a tag's text: the first `key="` that
/// follows whitespace, up to the next `"`.
pub open spec fn attr_from(body: Seq<char>, key: Seq<char>, p: int) -> Option<Seq<char>>
    decreases body.len() - p,
{
    if p < 1 || p >= body.len() {
        None
    } else if is_ws(body[p - 1]) && occurs_at(body, key + seq!['=', '"'], p) {
        let v = p + key.len() + 2;
        match find_from(body, seq!['"'], v) {
            Some(q) => Some(body.subrange(v, q)),
            None => None,
        }
    } else {
        attr_from(body, key, p + 1)
    }
}

/// Raw element text without one leading and one trailing line feed.
pub open spec fn unwrap_nl(raw: Seq<char>) -> Seq<char> {
    let a = if raw.len() > 0 && raw[0] == '\n' {
        raw.skip(1)
    } else {
        raw
    };
    if a.len() > 0 && a.last() == '\n' {
        a.drop_last()
    } else {
        a
    }
}

/// The closing tag of a raw-text field element.
pub open spec fn closing_of(name: Seq<char>) -> Option<Seq<char>> {
    if name == "description"@ {
        Some("</description>"@)
    } else if name == "search"@ {
        Some("</search>"@)
    } else if name == "content"@ {
        Some("</content>"@)
    } else {
        None
    }
}

/// The state after an end tag named `name`.
pub open spec fn t_end(st: TState, name: Seq<char>) -> TState {
    match st.mode {
        Mode::Skip(d) => if d <= 1 {
            TState { mode: Mode::Top, ..st }
        } else {
            TState { mode: Mode::Skip((d - 1) as usize), ..st }
        },
        Mode::InFile => if name == "file"@ {
            TState {
                files: st.files.push(FileV { path: st.path, action: st.action, changes: st.changes }),
                mode: Mode::Top,
                changes: Seq::empty(),
                ..st
            }
        } else {
            st
        },
        Mode::InChange => if name == "change"@ {
            TState {
                changes: st.changes.push(
                    ChangeV {
                        description: trim(st.desc),
                        search: st.search,
                        content: trim(st.content),
                    },
                ),
                mode: Mode::InFile,
                desc: Seq::empty(),
                search: None,
                content: Seq::empty(),
                ..st
            }
        } else {
            st
        },
        Mode::Top => st,
    }
}

/// The state and position after a start tag named `name`, whose text is
/// `body`, that ends just before `next`.
pub open spec fn t_start(s: Seq<char>, st: TState, name: Seq<char>, body: Seq<char>, next: int) -> Result<
    (TState, int),
    PFail,
> {
    match st.mode {
        Mode::Top => if name == "file"@ {
            match attr_from(body, "path"@, 1) {
                None => Err(PFail::MissingPath),
                Some(p) => match attr_from(body, "action"@, 1) {
                    None => Err(PFail::MissingAction(p)),
                    Some(a) => match action_of(a) {
                        None => Err(PFail::UnknownAction(a)),
                        Some(act) => Ok(
                            (
                                TState {
                                    mode: Mode::InFile,
                                    path: p,
                                    action: act,
                                    changes: Seq::empty(),
                                    ..st
                                },
                                next,
                            ),
                        ),
                    },
                },
            }
        } else {
            Ok((TState { mode: Mode::Skip(1), ..st }, next))
        },
        Mode::Skip(d) => Ok((TState { mode: Mode::Skip((d + 1) as usize), ..st }, next)),
        Mode::InFile => if name == "change"@ {
            Ok(
                (
                    TState {
                        mode: Mode::InChange,
                        desc: Seq::empty(),
                        search: None,
                        content: Seq::empty(),
                        ..st
                    },
                    next,
                ),
            )
        } else {
            Ok((st, next))
        },
        Mode::InChange => match closing_of(name) {
            None => Ok((st, next)),
            Some(closing) => match find_from(s, closing, next) {
                None => Err(PFail::UnclosedElement),
                Some(q) => {
                    let raw = s.subrange(next, q);
                    let after = q + closing.len();
                    if name == "description"@ {
                        Ok((TState { desc: raw, ..st }, after))
                    } else if name == "search"@ {
                        Ok((TState { search: Some(strip_elision_spec(unwrap_nl(raw))), ..st }, after))
                    } else {
                        Ok((TState { content: strip_elision_spec(unwrap_nl(raw)), ..st }, after))
                    }
                },
            },
        },
    }
}

/// The state and position after what starts at `i`.
pub open spec fn t_step(s: Seq<char>, i: int, st: TState) -> Result<(TState, int), PFail> {
    if s[i] != '<' {
        Ok((st, i + 1))
    } else {
        match find_from(s, seq!['>'], i + 1) {
            None => Err(PFail::UnterminatedTag),
            Some(j) => {
                let body = s.subrange(i + 1, j);
                if body.len() > 0 && body[0] == '/' {
                    Ok((t_end(st, trim(body.skip(1))), j + 1))
                } else if body.len() > 0 && body.last() == '/' {
                    Ok((st, j + 1))
                } else {
                    t_start(s, st, body.take(name_end(body, 0)), body, j + 1)
                }
            },
        }
    }
}

/// The text from `i` on read from state `st`.
pub open spec fn t_run(s: Seq<char>, i: int, st: TState) -> Result<Seq<FileV>, PFail>
    decreases s.len() - i,
{
    if i < 0 || i >= s.len() {
        match st.mode {
            Mode::Top => Ok(st.files),
            Mode::Skip(_) => Ok(st.files),
            _ => Err(PFail::UnclosedElement),
        }
    } else {
        match t_step(s, i, st) {
            Ok(r) => if i < r.1 <= s.len() {
                t_run(s, r.1, r.0)
            } else {
                Err(PFail::UnterminatedTag)
            },
            Err(e) => Err(e),
        }
    }
}

/// A document in the tag dialect.
pub open spec fn parse_tags_spec(text: Seq<char>) -> Result<Seq<FileV>, PFail> {
    t_run(text, 0, t_init())
}

struct TagState {
    files: Vec<FileChange>,
    mode: Mode,
    path: Vec<char>,
    action: Action,
    changes: Vec<Change>,
    desc: Vec<char>,
    search: Option<Vec<char>>,
    content: Vec<char>,
}

impl TagState {
    spec fn view(&self) -> TState {
        TState {
            files: doc_view(self.files@),
            mode: self.mode,
            path: self.path@,
            action: self.action,
            changes: self.changes@.map_values(|c: Change| change_view(c)),
            desc: self.desc@,
            search: crate::heading::opt_chars(self.search),
            content: self.content@,
        }
    }
}

fn name_end_exec(body: &Vec<char>) -> (r: usize)
    ensures
        r == name_end(body@, 0),
        r <= body@.len(),
{
    let mut k: usize = 0;
    while k < body.len() && !is_ws_char(body[k]) && body[k] != '/'
        invariant
            k <= body@.len(),
            name_end(body@, 0) == name_end(body@, k as int),
        decreases body@.len() - k,
    {
        k = k + 1;
    }
    k
}

fn attr_value(body: &Vec<char>, key: &Vec<char>) -> (r: Option<Vec<char>>)
    ensures
        crate::heading::opt_chars(r) == attr_from(body@, key@, 1),
{
    let mut pat = key.clone();
    proof {
        assert(pat@ =~= key@);
    }
    pat.push('=');
    pat.push('"');
    let quote = vec!['"'];
    assert(pat@ =~= key@ + seq!['=', '"']);
    assert(quote@ =~= seq!['"']);
    let mut p: usize = 1;
    while p < body.len()
        invariant
            1 <= p,
            p <= body@.len() || body@.len() == 0,
            pat@ == key@ + seq!['=', '"'],
            quote@ == seq!['"'],
            attr_from(body@, key@, 1) == attr_from(body@, key@, p as int),
        decreases body@.len() - p,
    {
        let found = is_ws_char(body[p - 1]) && pat.len() <= body.len() - p && occurs_at_exec(
            body,
            &pat,
            p,
        );
        if found {
            let v = p + pat.len();
            match find_exact_from(body, &quote, v) {
                Some(q) => {
                    return Some(slice_of(body, v, q));
                },
                None => {
                    return None;
                },
            }
        }
        p = p + 1;
    }
    None
}

fn unwrap_newlines(raw: &Vec<char>) -> (r: Vec<char>)
    ensures
        r@ == unwrap_nl(raw@),
{
    let n = raw.len();
    let lo: usize = if n > 0 && raw[0] == '\n' {
        1
    } else {
        0
    };
    let hi: usize = if n > lo && raw[n - 1] == '\n' {
        n - 1
    } else {
        n
    };
    let r = slice_of(raw, lo, hi);
    proof {
        let a = if raw@.len() > 0 && raw@[0] == '\n' {
            raw@.skip(1)
        } else {
            raw@
        };
        assert(a =~= raw@.subrange(lo as int, n as int));
        if a.len() > 0 && a.last() == '\n' {
            assert(r@ =~= a.drop_last());
        } else {
            assert(r@ =~= a);
        }
    }
    r
}

fn end_tag(st: TagState, name: &Vec<char>) -> (r: TagState)
    ensures
        r.view() == t_end(st.view(), name@),
{
    match st.mode {
        Mode::Skip(d) => if d <= 1 {
            TagState { mode: Mode::Top, ..st }
        } else {
            TagState { mode: Mode::Skip(d - 1), ..st }
        },
        Mode::InFile => if same_chars(name, &chars_of("file")) {
            let fc = FileChange { path: string_of(&st.path), action: st.action, changes: st.changes };
            let mut files = st.files;
            let ghost before = files@;
            files.push(fc);
            assert(doc_view(files@) =~= doc_view(before).push(file_view(fc)));
            let r = TagState { files, mode: Mode::Top, changes: Vec::new(), ..st };
            assert(r.view().changes =~= Seq::<ChangeV>::empty());
            r
        } else {
            st
        },
        Mode::InChange => if same_chars(name, &chars_of("change")) {
            let c = make_change(&st.desc, st.search, &st.content);
            let mut changes = st.changes;
            let ghost before = changes@;
            changes.push(c);
            assert(changes@.map_values(|c: Change| change_view(c)) =~= before.map_values(
                |c: Change| change_view(c),
            ).push(change_view(c)));
            TagState {
                changes,
                mode: Mode::InFile,
                desc: Vec::new(),
                search: None,
                content: Vec::new(),
                ..st
            }
        } else {
            st
        },
        Mode::Top => st,
    }
}

fn start_tag(s: &Vec<char>, st: TagState, name: &Vec<char>, body: &Vec<char>, next: usize) -> (r: Result<
    (TagState, usize),
    ParseError,
>)
    requires
        1 <= next <= s@.len(),
        st.mode is Skip ==> st.mode->Skip_0 < next,
    ensures
        match r {
            Ok(p) => t_start(s@, st.view(), name@, body@, next as int) == Ok::<(TState, int), PFail>(
                (p.0.view(), p.1 as int),
            ) && next <= p.1 <= s@.len() && (p.0.mode is Skip ==> p.0.mode->Skip_0 <= p.1),
            Err(e) => t_start(s@, st.view(), name@, body@, next as int) == Err::<(TState, int), PFail>(
                e.fail(),
            ),
        },
{
    let sl = s.len();
    match st.mode {
        Mode::Top => if same_chars(name, &chars_of("file")) {
            match attr_value(body, &chars_of("path")) {
                None => Err(ParseError::MissingPath),
                Some(p) => match attr_value(body, &chars_of("action")) {
                    None => Err(ParseError::MissingAction { path: string_of(&p) }),
                    Some(a) => match parse_action(&a) {
                        None => Err(ParseError::UnknownAction { token: string_of(&a) }),
                        Some(act) => {
                            let r = TagState {
                                mode: Mode::InFile,
                                path: p,
                                action: act,
                                changes: Vec::new(),
                                ..st
                            };
                            assert(r.view().changes =~= Seq::<ChangeV>::empty());
                            Ok((r, next))
                        },
                    },
                },
            }
        } else {
            Ok((TagState { mode: Mode::Skip(1), ..st }, next))
        },
        Mode::Skip(d) => Ok((TagState { mode: Mode::Skip(d + 1), ..st }, next)),
        Mode::InFile => if same_chars(name, &chars_of("change")) {
            Ok(
                (
                    TagState {
                        mode: Mode::InChange,
                        desc: Vec::new(),
                        search: None,
                        content: Vec::new(),
                        ..st
                    },
                    next,
                ),
            )
        } else {
            Ok((st, next))
        },
        Mode::InChange => {
            let is_desc = same_chars(name, &chars_of("description"));
            let is_search = same_chars(name, &chars_of("search"));
            let is_content = same_chars(name, &chars_of("content"));
            if !is_desc && !is_search && !is_content {
                return Ok((st, next));
            }
            let closing = if is_desc {
                chars_of("</description>")
            } else if is_search {
                chars_of("</search>")
            } else {
                chars_of("</content>")
            };
            assert(closing_of(name@) == Some(closing@));
            match find_exact_from(s, &closing, next) {
                None => Err(ParseError::UnclosedElement),
                Some(q) => {
                    let raw = slice_of(s, next, q);
                    let after = q + closing.len();
                    if is_desc {
                        Ok((TagState { desc: raw, ..st }, after))
                    } else if is_search {
                        let text = strip_elision(&unwrap_newlines(&raw));
                        Ok((TagState { search: Some(text), ..st }, after))
                    } else {
                        let text = strip_elision(&unwrap_newlines(&raw));
                        Ok((TagState { content: text, ..st }, after))
                    }
                },
            }
        },
    }
}

/// Parses a document in the tag dialect.
pub fn parse_tags(s: &Vec<char>) -> (r: Result<Vec<FileChange>, ParseError>)
    ensures
        crate::protocol::parsed_view(r) == parse_tags_spec(s@),
{
    let gt = vec!['>'];
    assert(gt@ =~= seq!['>']);
    let mut st = TagState {
        files: Vec::new(),
        mode: Mode::Top,
        path: Vec::new(),
        action: Action::Modify,
        changes: Vec::new(),
        desc: Vec::new(),
        search: None,
        content: Vec::new(),
    };
    assert(st.view().files =~= Seq::<FileV>::empty());
    assert(st.view().changes =~= Seq::<ChangeV>::empty());
    let mut i: usize = 0;
    while i < s.len()
        invariant
            i <= s@.len(),
            gt@ == seq!['>'],
            st.mode is Skip ==> st.mode->Skip_0 <= i,
            t_run(s@, 0, t_init()) == t_run(s@, i as int, st.view()),
        decreases s@.len() - i,
    {
        let ghost sv = st.view();
        let ghost i0 = i as int;
        if s[i] != '<' {
            i = i + 1;
            continue;
        }
        let j = match find_exact_from(s, &gt, i + 1) {
            None => {
                return Err(ParseError::UnterminatedTag);
            },
            Some(j) => j,
        };
        let body = slice_of(s, i + 1, j);
        let bl = body.len();
        if bl > 0 && body[0] == '/' {
            let rest = slice_of(&body, 1, bl);
            assert(rest@ =~= body@.skip(1));
            let name = trimmed(&rest);
            st = end_tag(st, &name);
            i = j + 1;
            assert(t_step(s@, i0, sv) == Ok::<(TState, int), PFail>((st.view(), i as int)));
        } else if bl > 0 && body[bl - 1] == '/' {
            i = j + 1;
            assert(t_step(s@, i0, sv) == Ok::<(TState, int), PFail>((st.view(), i as int)));
        } else {
            let ne = name_end_exec(&body);
            let name = slice_of(&body, 0, ne);
            assert(name@ =~= body@.take(ne as int));
            match start_tag(s, st, &name, &body, j + 1) {
                Ok((next_st, next)) => {
                    st = next_st;
                    i = next;
                    assert(t_step(s@, i0, sv) == Ok::<(TState, int), PFail>((st.view(), i as int)));
                },
                Err(e) => {
                    return Err(e);
                },
            }
        }
    }
    match st.mode {
        Mode::Top => Ok(st.files),
        Mode::Skip(_) => Ok(st.files),
        _ => Err(ParseError::UnclosedElement),
    }
}

pub open spec fn t_inv(st: TState) -> bool {
    &&& doc_stripped(st.files)
    &&& changes_stripped(st.changes)
    &&& (st.search is None || is_stripped(st.search->0))
    &&& (st.content.len() == 0 || is_stripped(st.content))
}

proof fn lemma_t_end_keeps(st: TState, name: Seq<char>)
    requires
        t_inv(st),
    ensures
        t_inv(t_end(st, name)),
{
    match st.mode {
        Mode::InFile => if name == "file"@ {
            let f = FileV { path: st.path, action: st.action, changes: st.changes };
            let fs = st.files.push(f);
            assert forall|i: int| 0 <= i < fs.len() implies changes_stripped(#[trigger] fs[i].changes) by {
                if i < st.files.len() {
                    assert(fs[i] == st.files[i]);
                }
            }
            assert(changes_stripped(Seq::<ChangeV>::empty()));
        },
        Mode::InChange => if name == "change"@ {
            let c = ChangeV { description: trim(st.desc), search: st.search, content: trim(st.content) };
            if st.content.len() > 0 {
                let raw = choose|raw: Seq<char>| st.content == #[trigger] strip_elision_spec(raw);
                assert(c.content == trim(strip_elision_spec(raw)));
            } else {
                assert(trim(st.content) =~= Seq::<char>::empty());
            }
            assert(change_stripped(c));
            let cs = st.changes.push(c);
            assert forall|j: int| 0 <= j < cs.len() implies change_stripped(#[trigger] cs[j]) by {
                if j < st.changes.len() {
                    assert(cs[j] == st.changes[j]);
                }
            }
        },
        _ => {},
    }
}

proof fn lemma_t_step_keeps(s: Seq<char>, i: int, st: TState)
    requires
        0 <= i < s.len(),
        t_inv(st),
        t_step(s, i, st) is Ok,
    ensures
        t_inv(t_step(s, i, st)->Ok_0.0),
{
    if s[i] == '<' {
        let j = find_from(s, seq!['>'], i + 1)->0;
        let body = s.subrange(i + 1, j);
        if body.len() > 0 && body[0] == '/' {
            lemma_t_end_keeps(st, trim(body.skip(1)));
        } else if !(body.len() > 0 && body.last() == '/') {
            let name = body.take(name_end(body, 0));
            if st.mode == Mode::InChange {
                if let Some(closing) = closing_of(name) {
                    if let Some(q) = find_from(s, closing, j + 1) {
                        let raw = s.subrange(j + 1, q);
                        assert(is_stripped(strip_elision_spec(unwrap_nl(raw))));
                    }
                }
            } else if st.mode == Mode::Top {
                assert(changes_stripped(Seq::<ChangeV>::empty()));
            }
        }
    }
}

/// A tag-dialect document keeps elision-stripped search and content texts
/// only.
pub proof fn lemma_t_run_stripped(s: Seq<char>, i: int, st: TState)
    requires
        t_inv(st),
        t_run(s, i, st) is Ok,
    ensures
        doc_stripped(t_run(s, i, st)->Ok_0),
    decreases s.len() - i,
{
    if 0 <= i < s.len() {
        lemma_t_step_keeps(s, i, st);
        let r = t_step(s, i, st)->Ok_0;
        lemma_t_run_stripped(s, r.1, r.0);
    }
}

} // verus!

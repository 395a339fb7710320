//! Locates the span of a file's text that an edit fragment's search text
//! stands for, trying an exact match, then a whitespace-tolerant regular
//! expression, then a comparison of trimmed lines.

use vstd::prelude::*;
use crate::text::{
    is_ws, is_ws_char, lf_only, lf_pos, trim, ws_run_end, chars_of, string_of, to_lf, to_lf_indexed,
    trimmed, slice_of,
    push_all, lemma_ws_run_end_bounds,
};

verus! {

pub open spec fn opt_int(o: Option<usize>) -> Option<int> {
    match o {
        Some(i) => Some(i as int),
        None => None,
    }
}

// ---------------------------------------------------------------------------
// Exact match

pub open spec fn occurs_at(h: Seq<char>, n: Seq<char>, i: int) -> bool {
    0 <= i && i + n.len() <= h.len() && h.subrange(i, i + n.len()) == n
}

/// The first position at or after `i` where `n` occurs in `h`.
pub open spec fn find_from(h: Seq<char>, n: Seq<char>, i: int) -> Option<int>
    decreases h.len() + 1 - i,
{
    if i < 0 || i + n.len() > h.len() {
        None
    } else if occurs_at(h, n, i) {
        Some(i)
    } else {
        find_from(h, n, i + 1)
    }
}

pub proof fn lemma_find_from_found(h: Seq<char>, n: Seq<char>, i: int, p: int)
    requires
        0 <= i <= p,
        occurs_at(h, n, p),
    ensures
        find_from(h, n, i) is Some,
        i <= find_from(h, n, i)->0 <= p,
        occurs_at(h, n, find_from(h, n, i)->0),
    decreases p - i,
{
    if !occurs_at(h, n, i) {
        lemma_find_from_found(h, n, i + 1, p);
    }
}

pub fn occurs_at_exec(h: &Vec<char>, n: &Vec<char>, i: usize) -> (r: bool)
    requires
        i + n@.len() <= h@.len(),
    ensures
        r == occurs_at(h@, n@, i as int),
{
    let hl = h.len();
    let mut j: usize = 0;
    while j < n.len()
        invariant
            hl == h@.len(),
            i + n@.len() <= h@.len(),
            j <= n@.len(),
            forall|k: int| 0 <= k < j ==> h@[i + k] == n@[k],
        decreases n@.len() - j,
    {
        if h[i + j] != n[j] {
            assert(h@.subrange(i as int, i + n@.len())[j as int] != n@[j as int]);
            return false;
        }
        j = j + 1;
    }
    assert(h@.subrange(i as int, i + n@.len()) =~= n@);
    true
}

/// The first position at or after `start` where `n` occurs in `h`.
pub fn find_exact_from(h: &Vec<char>, n: &Vec<char>, start: usize) -> (r: Option<usize>)
    ensures
        opt_int(r) == find_from(h@, n@, start as int),
        r is Some ==> start <= r->0 && r->0 + n@.len() <= h@.len(),
{
    let hl = h.len();
    if n.len() > hl || start > hl - n.len() {
        return None;
    }
    let last = hl - n.len();
    let mut i: usize = start;
    while i <= last
        invariant
            hl == h@.len(),
            start <= i,
            last + n@.len() == h@.len(),
            i <= last + 1,
            last < usize::MAX || n@.len() == 0,
            find_from(h@, n@, start as int) == find_from(h@, n@, i as int),
        decreases last + 1 - i,
    {
        if occurs_at_exec(h, n, i) {
            return Some(i);
        }
        if i == last {
            assert(find_from(h@, n@, i + 1) is None);
            return None;
        }
        i = i + 1;
    }
    None
}

/// The first position where `n` occurs in `h`.
pub fn find_exact(h: &Vec<char>, n: &Vec<char>) -> (r: Option<usize>)
    ensures
        opt_int(r) == find_from(h@, n@, 0),
        r is Some ==> r->0 + n@.len() <= h@.len(),
{
    find_exact_from(h, n, 0)
}

// ---------------------------------------------------------------------------
// Whitespace-separated words

/// The maximal runs of non-whitespace characters of `s`, in order.
pub open spec fn words(s: Seq<char>) -> Seq<Seq<char>>
    decreases s.len(),
{
    if s.len() == 0 {
        Seq::empty()
    } else {
        let w = words(s.drop_last());
        let c = s.last();
        if is_ws(c) {
            w
        } else if s.len() >= 2 && !is_ws(s[s.len() - 2]) {
            w.update(w.len() - 1, w.last().push(c))
        } else {
            w.push(seq![c])
        }
    }
}

pub open spec fn is_word(t: Seq<char>) -> bool {
    t.len() > 0 && forall|k: int| 0 <= k < t.len() ==> !is_ws(#[trigger] t[k])
}

pub open spec fn all_words(ws: Seq<Seq<char>>) -> bool {
    forall|k: int| 0 <= k < ws.len() ==> is_word(#[trigger] ws[k])
}

pub proof fn lemma_words_shape(s: Seq<char>)
    ensures
        all_words(words(s)),
        s.len() > 0 && !is_ws(s.last()) ==> words(s).len() > 0,
    decreases s.len(),
{
    if s.len() > 0 {
        let w = words(s.drop_last());
        lemma_words_shape(s.drop_last());
        let c = s.last();
        if !is_ws(c) && s.len() >= 2 && !is_ws(s[s.len() - 2]) {
            assert(s.drop_last().last() == s[s.len() - 2]);
            let t = w.last().push(c);
            assert(is_word(w.last()));
            assert forall|k: int| 0 <= k < t.len() implies !is_ws(#[trigger] t[k]) by {
                if k < t.len() - 1 {
                    assert(t[k] == w.last()[k]);
                }
            }
            let u = w.update(w.len() - 1, t);
            assert forall|k: int| 0 <= k < u.len() implies is_word(#[trigger] u[k]) by {
                if k != w.len() - 1 {
                    assert(u[k] == w[k]);
                }
            }
        } else if !is_ws(c) {
            let u = w.push(seq![c]);
            assert forall|k: int| 0 <= k < u.len() implies is_word(#[trigger] u[k]) by {
                if k < w.len() {
                    assert(u[k] == w[k]);
                }
            }
        }
    }
}

pub open spec fn deep(v: Seq<Vec<char>>) -> Seq<Seq<char>> {
    v.map_values(|x: Vec<char>| x@)
}

/// The whitespace-separated words of `s`.
pub fn words_of(s: &Vec<char>) -> (r: Vec<Vec<char>>)
    ensures
        deep(r@) == words(s@),
{
    let mut r: Vec<Vec<char>> = Vec::new();
    let mut i: usize = 0;
    while i < s.len()
        invariant
            i <= s@.len(),
            deep(r@) == words(s@.take(i as int)),
        decreases s@.len() - i,
    {
        let c = s[i];
        let ghost pre = s@.take(i as int);
        let ghost cur = s@.take(i + 1);
        assert(cur.drop_last() =~= pre);
        assert(cur.last() == c);
        if is_ws_char(c) {
        } else if i >= 1 && !is_ws_char(s[i - 1]) {
            proof {
                assert(pre.last() == s@[i - 1]);
                lemma_words_shape(pre);
                assert(cur[cur.len() - 2] == s@[i - 1]);
            }
            let mut w = r.pop().unwrap();
            w.push(c);
            r.push(w);
            assert(deep(r@) =~= words(pre).update(words(pre).len() - 1, words(pre).last().push(c)));
        } else {
            proof {
                if i >= 1 {
                    assert(cur[cur.len() - 2] == s@[i - 1]);
                }
            }
            let mut w: Vec<char> = Vec::new();
            w.push(c);
            r.push(w);
            assert(deep(r@) =~= words(pre).push(seq![c]));
        }
        i = i + 1;
    }
    assert(s@.take(s@.len() as int) =~= s@);
    r
}

// ---------------------------------------------------------------------------
// Whitespace-tolerant regular expression

/// A character that `regex::escape` prefixes with a backslash.
pub open spec fn is_meta(c: char) -> bool {
    c == '\\' || c == '.' || c == '+' || c == '*' || c == '?' || c == '(' || c == ')' || c == '|'
        || c == '[' || c == ']' || c == '{' || c == '}' || c == '^' || c == '$' || c == '#' || c
        == '&' || c == '-' || c == '~'
}

/// `t` as a regular expression that matches `t` literally.
pub open spec fn escaped(t: Seq<char>) -> Seq<char>
    decreases t.len(),
{
    if t.len() == 0 {
        t
    } else if is_meta(t.last()) {
        escaped(t.drop_last()) + seq!['\\', t.last()]
    } else {
        escaped(t.drop_last()) + seq![t.last()]
    }
}

/// The escaped words joined by `\s+`.
pub open spec fn joined(ws: Seq<Seq<char>>) -> Seq<char>
    decreases ws.len(),
{
    if ws.len() == 0 {
        Seq::empty()
    } else if ws.len() == 1 {
        escaped(ws[0])
    } else {
        joined(ws.drop_last()) + seq!['\\', 's', '+'] + escaped(ws.last())
    }
}

/// The pattern `(?s)\s*w1\s+w2...\s+wn\s*` for the words `ws`.
pub open spec fn ws_pattern(ws: Seq<Seq<char>>) -> Seq<char> {
    seq!['(', '?', 's', ')', '\\', 's', '*'] + joined(ws) + seq!['\\', 's', '*']
}

/// Where a match of the words `ws`, separated by whitespace, that starts at
/// `q` ends.
pub open spec fn words_end(h: Seq<char>, q: int, ws: Seq<Seq<char>>) -> Option<int>
    decreases ws.len(),
{
    if ws.len() == 0 {
        Some(q)
    } else {
        let t = ws[0];
        let e = q + t.len();
        if 0 <= q && e <= h.len() && h.subrange(q, e) == t {
            if ws.len() == 1 {
                Some(e)
            } else {
                let j = ws_run_end(h, e);
                if j > e {
                    words_end(h, j, ws.drop_first())
                } else {
                    None
                }
            }
        } else {
            None
        }
    }
}

/// Where the match of `ws_pattern(ws)` that starts at `p` ends: any
/// whitespace, the words, then any whitespace, each run taken whole.
pub open spec fn ws_match_from(h: Seq<char>, p: int, ws: Seq<Seq<char>>) -> Option<int> {
    match words_end(h, ws_run_end(h, p), ws) {
        Some(e) => Some(ws_run_end(h, e)),
        None => None,
    }
}

/// The leftmost match of `ws_pattern(ws)` at or after `p`.
pub open spec fn ws_find_from(h: Seq<char>, ws: Seq<Seq<char>>, p: int) -> Option<(int, int)>
    decreases h.len() + 1 - p,
{
    if p < 0 || p > h.len() {
        None
    } else {
        match ws_match_from(h, p, ws) {
            Some(e) => Some((p, e)),
            None => ws_find_from(h, ws, p + 1),
        }
    }
}

pub proof fn lemma_ws_find_from_found(h: Seq<char>, ws: Seq<Seq<char>>, p: int, q: int)
    requires
        0 <= p <= q <= h.len(),
        ws_match_from(h, q, ws) is Some,
    ensures
        ws_find_from(h, ws, p) is Some,
    decreases q - p,
{
    if ws_match_from(h, p, ws) is None {
        lemma_ws_find_from_found(h, ws, p + 1, q);
    }
}

/// Whether `regex::Regex::new` accepts the pattern (it refuses one whose
/// compiled form exceeds its size limit).
pub uninterp spec fn regex_compiles(pattern: Seq<char>) -> bool;

/// Relies on `regex::Regex::new` and `regex::Regex::find`: the pattern
/// compiles or not depending on its text alone, and `find` returns the
/// leftmost-first match, where the greedy `\s` runs of `ws_pattern` take
/// whole whitespace runs. The match is handed back as the text before it
/// and the text after it.
#[verifier::external_body]
fn regex_split(pattern: &str, hay: &str) -> (r: Option<(String, String)>)
    ensures
        !regex_compiles(pattern@) ==> r is None,
        regex_compiles(pattern@) ==> forall|ws: Seq<Seq<char>>|
            #![trigger ws_pattern(ws)]
            pattern@ == ws_pattern(ws) && all_words(ws) ==> match ws_find_from(hay@, ws, 0) {
                None => r is None,
                Some(m) => match r {
                    Some(pr) => pr.0@ == hay@.take(m.0) && pr.1@ == hay@.skip(m.1),
                    None => false,
                },
            },
{
    match regex::Regex::new(pattern) {
        Ok(re) => re.find(hay).map(|m| (hay[..m.start()].to_string(), hay[m.end()..].to_string())),
        Err(_) => None,
    }
}

fn push_escaped(r: &mut Vec<char>, t: &Vec<char>)
    ensures
        final(r)@ == old(r)@ + escaped(t@),
{
    let mut i: usize = 0;
    while i < t.len()
        invariant
            i <= t@.len(),
            r@ == old(r)@ + escaped(t@.take(i as int)),
        decreases t@.len() - i,
    {
        let c = t[i];
        let ghost cur = t@.take(i + 1);
        assert(cur.drop_last() =~= t@.take(i as int));
        if c == '\\' || c == '.' || c == '+' || c == '*' || c == '?' || c == '(' || c == ')' || c
            == '|' || c == '[' || c == ']' || c == '{' || c == '}' || c == '^' || c == '$' || c
            == '#' || c == '&' || c == '-' || c == '~' {
            r.push('\\');
            r.push(c);
            assert(r@ =~= old(r)@ + escaped(cur));
        } else {
            r.push(c);
            assert(r@ =~= old(r)@ + escaped(cur));
        }
        i = i + 1;
    }
    assert(t@.take(t@.len() as int) =~= t@);
}

proof fn lemma_joined_step(ws: Seq<Seq<char>>, i: int)
    requires
        0 <= i < ws.len(),
    ensures
        joined(ws.take(i + 1)) == if i == 0 {
            escaped(ws[0])
        } else {
            joined(ws.take(i)) + seq!['\\', 's', '+'] + escaped(ws[i])
        },
        i == 0 ==> joined(ws.take(i)) == Seq::<char>::empty(),
{
    let cur = ws.take(i + 1);
    assert(cur.drop_last() =~= ws.take(i));
    assert(cur.last() == ws[i]);
    if i == 0 {
        assert(cur[0] == ws[0]);
    }
}

/// The pattern that matches the words of a needle separated by any whitespace.
pub fn build_ws_pattern(ws: &Vec<Vec<char>>) -> (r: Vec<char>)
    ensures
        r@ == ws_pattern(deep(ws@)),
{
    let mut r: Vec<char> = vec!['(', '?', 's', ')', '\\', 's', '*'];
    let ghost head = r@;
    let mut i: usize = 0;
    while i < ws.len()
        invariant
            i <= ws@.len(),
            head == seq!['(', '?', 's', ')', '\\', 's', '*'],
            r@ == head + joined(deep(ws@).take(i as int)),
        decreases ws@.len() - i,
    {
        let ghost cur = deep(ws@).take(i + 1);
        proof {
            lemma_joined_step(deep(ws@), i as int);
        }
        if i > 0 {
            r.push('\\');
            r.push('s');
            r.push('+');
        }
        push_escaped(&mut r, &ws[i]);
        assert(r@ =~= head + joined(cur));
        i = i + 1;
    }
    assert(deep(ws@).take(ws@.len() as int) =~= deep(ws@));
    r.push('\\');
    r.push('s');
    r.push('*');
    assert(r@ =~= ws_pattern(deep(ws@)));
    r
}

// ---------------------------------------------------------------------------
// Trimmed lines

/// The bounds of the lines of `s` (the text between line feeds).
pub open spec fn line_bounds(s: Seq<char>) -> Seq<(int, int)>
    decreases s.len(),
{
    if s.len() == 0 {
        seq![(0, 0)]
    } else {
        let b = line_bounds(s.drop_last());
        if s.last() == '\n' {
            b.push((s.len() as int, s.len() as int))
        } else {
            b.update(b.len() - 1, (b.last().0, s.len() as int))
        }
    }
}

/// Line `k` of `s`, trimmed.
pub open spec fn trimmed_line(s: Seq<char>, k: int) -> Seq<char> {
    let b = line_bounds(s)[k];
    trim(s.subrange(b.0, b.1))
}

pub open spec fn window_matches(h: Seq<char>, n: Seq<char>, i: int) -> bool {
    let m = line_bounds(n).len();
    0 <= i && i + m <= line_bounds(h).len() && forall|j: int|
        0 <= j < m ==> trimmed_line(h, i + j) == #[trigger] trimmed_line(n, j)
}

/// The first run of lines of `h`, at or after line `i`, whose trimmed lines
/// are those of `n`, as the span from the start of its first line to the end
/// of its last.
pub open spec fn line_find_from(h: Seq<char>, n: Seq<char>, i: int) -> Option<(int, int)>
    decreases line_bounds(h).len() + 1 - i,
{
    let m = line_bounds(n).len();
    if i < 0 || i + m > line_bounds(h).len() {
        None
    } else if window_matches(h, n, i) {
        Some((line_bounds(h)[i].0, line_bounds(h)[i + m - 1].1))
    } else {
        line_find_from(h, n, i + 1)
    }
}

pub open spec fn bounds_view(v: Seq<(usize, usize)>) -> Seq<(int, int)> {
    v.map_values(|x: (usize, usize)| (x.0 as int, x.1 as int))
}

pub fn line_bounds_of(s: &Vec<char>) -> (r: Vec<(usize, usize)>)
    ensures
        bounds_view(r@) == line_bounds(s@),
        r@.len() >= 1,
        forall|k: int| #![trigger r@[k]] 0 <= k < r@.len() ==> r@[k].0 <= r@[k].1 && r@[k].1 <= s@.len(),
        forall|k: int, l: int| #![trigger r@[k], r@[l]] 0 <= k < l < r@.len() ==> r@[k].1 <= r@[l].0,
{
    let mut r: Vec<(usize, usize)> = Vec::new();
    r.push((0, 0));
    assert(bounds_view(r@) =~= line_bounds(s@.take(0)));
    let mut i: usize = 0;
    while i < s.len()
        invariant
            i <= s@.len(),
            r@.len() >= 1,
            bounds_view(r@) == line_bounds(s@.take(i as int)),
            forall|k: int| #![trigger r@[k]] 0 <= k < r@.len() ==> r@[k].0 <= r@[k].1 && r@[k].1 <= i,
            forall|k: int, l: int| #![trigger r@[k], r@[l]] 0 <= k < l < r@.len() ==> r@[k].1 <= r@[l].0,
        decreases s@.len() - i,
    {
        let ghost cur = s@.take(i + 1);
        assert(cur.drop_last() =~= s@.take(i as int));
        assert(cur.last() == s@[i as int]);
        if s[i] == '\n' {
            r.push((i + 1, i + 1));
            assert(bounds_view(r@) =~= line_bounds(cur));
        } else {
            let last = r.len() - 1;
            let start = r[last].0;
            r.set(last, (start, i + 1));
            assert(bounds_view(r@) =~= line_bounds(cur));
        }
        i = i + 1;
    }
    assert(s@.take(s@.len() as int) =~= s@);
    r
}

/// The trimmed lines of `s`.
pub fn trimmed_lines(s: &Vec<char>, b: &Vec<(usize, usize)>) -> (r: Vec<Vec<char>>)
    requires
        bounds_view(b@) == line_bounds(s@),
        forall|k: int| #![trigger b@[k]] 0 <= k < b@.len() ==> b@[k].0 <= b@[k].1 && b@[k].1 <= s@.len(),
    ensures
        r@.len() == b@.len(),
        forall|k: int| 0 <= k < r@.len() ==> (#[trigger] r@[k])@ == trimmed_line(s@, k),
{
    let mut r: Vec<Vec<char>> = Vec::new();
    let mut k: usize = 0;
    while k < b.len()
        invariant
            k <= b@.len(),
            r@.len() == k,
            bounds_view(b@) == line_bounds(s@),
            forall|q: int| #![trigger b@[q]] 0 <= q < b@.len() ==> b@[q].0 <= b@[q].1 && b@[q].1 <= s@.len(),
            forall|q: int| 0 <= q < k ==> (#[trigger] r@[q])@ == trimmed_line(s@, q),
        decreases b@.len() - k,
    {
        let (lo, hi) = b[k];
        assert(line_bounds(s@)[k as int] == bounds_view(b@)[k as int]);
        let line = slice_of(s, lo, hi);
        let t = trimmed(&line);
        r.push(t);
        k = k + 1;
    }
    r
}

pub fn same_chars(a: &Vec<char>, b: &Vec<char>) -> (r: bool)
    ensures
        r == (a@ == b@),
{
    if a.len() != b.len() {
        return false;
    }
    let mut i: usize = 0;
    while i < a.len()
        invariant
            a@.len() == b@.len(),
            i <= a@.len(),
            forall|k: int| 0 <= k < i ==> a@[k] == b@[k],
        decreases a@.len() - i,
    {
        if a[i] != b[i] {
            return false;
        }
        i = i + 1;
    }
    assert(a@ =~= b@);
    true
}

/// The first run of lines of `h` whose trimmed lines are those of `n`.
pub fn find_trimmed_lines(h: &Vec<char>, n: &Vec<char>) -> (r: Option<(usize, usize)>)
    ensures
        match r {
            Some(p) => line_find_from(h@, n@, 0) == Some((p.0 as int, p.1 as int)) && p.0 <= p.1
                <= h@.len(),
            None => line_find_from(h@, n@, 0) is None,
        },
{
    let hb = line_bounds_of(h);
    let nb = line_bounds_of(n);
    let ht = trimmed_lines(h, &hb);
    let nt = trimmed_lines(n, &nb);
    let m = nb.len();
    let hl = hb.len();
    if m > hl {
        return None;
    }
    let last = hb.len() - m;
    let mut i: usize = 0;
    while i <= last
        invariant
            forall|k: int| #![trigger hb@[k]] 0 <= k < hb@.len() ==> hb@[k].0 <= hb@[k].1 && hb@[k].1 <= h@.len(),
            forall|k: int, l: int| #![trigger hb@[k], hb@[l]] 0 <= k < l < hb@.len() ==> hb@[k].1 <= hb@[l].0,
            m == line_bounds(n@).len() >= 1,
            last + m == line_bounds(h@).len() == hb@.len() == ht@.len() == hl,
            nt@.len() == m,
            i <= last + 1,
            bounds_view(hb@) == line_bounds(h@),
            forall|k: int| 0 <= k < ht@.len() ==> (#[trigger] ht@[k])@ == trimmed_line(h@, k),
            forall|k: int| 0 <= k < nt@.len() ==> (#[trigger] nt@[k])@ == trimmed_line(n@, k),
            line_find_from(h@, n@, 0) == line_find_from(h@, n@, i as int),
        decreases last + 1 - i,
    {
        let mut j: usize = 0;
        let mut ok = true;
        while j < m
            invariant
                m == nt@.len(),
                m == line_bounds(n@).len(),
                ht@.len() == hb@.len() == line_bounds(h@).len() == hl,
                i + m <= ht@.len(),
                j <= m,
                forall|k: int| 0 <= k < ht@.len() ==> (#[trigger] ht@[k])@ == trimmed_line(h@, k),
                forall|k: int| 0 <= k < nt@.len() ==> (#[trigger] nt@[k])@ == trimmed_line(n@, k),
                ok ==> forall|q: int| 0 <= q < j ==> trimmed_line(h@, i + q) == #[trigger] trimmed_line(n@, q),
                !ok ==> !window_matches(h@, n@, i as int),
            decreases m - j,
        {
            if !same_chars(&ht[i + j], &nt[j]) {
                ok = false;
                assert(trimmed_line(h@, i + j) != trimmed_line(n@, j as int));
            }
            j = j + 1;
        }
        if ok {
            let start = hb[i].0;
            let end = hb[i + m - 1].1;
            assert(bounds_view(hb@)[i as int] == line_bounds(h@)[i as int]);
            assert(bounds_view(hb@)[i + m - 1] == line_bounds(h@)[i + m - 1]);
            assert(hb@[i as int].0 <= hb@[i as int].1);
            if m > 1 {
                assert(hb@[i as int].1 <= hb@[i + m - 1].0);
            }
            return Some((start, end));
        }
        i = i + 1;
    }
    None
}

// ---------------------------------------------------------------------------
// The three tiers together

proof fn lemma_words_end_bounds(h: Seq<char>, q: int, ws: Seq<Seq<char>>)
    requires
        0 <= q <= h.len(),
        words_end(h, q, ws) is Some,
    ensures
        q <= words_end(h, q, ws)->0 <= h.len(),
    decreases ws.len(),
{
    if ws.len() > 1 {
        let e = q + ws[0].len();
        lemma_ws_run_end_bounds(h, e);
        lemma_words_end_bounds(h, ws_run_end(h, e), ws.drop_first());
    }
}

proof fn lemma_ws_find_from_bounds(h: Seq<char>, ws: Seq<Seq<char>>, p: int)
    requires
        0 <= p,
        ws_find_from(h, ws, p) is Some,
    ensures
        match ws_find_from(h, ws, p) {
            Some(m) => p <= m.0 <= m.1 <= h.len(),
            None => false,
        },
    decreases h.len() + 1 - p,
{
    if ws_match_from(h, p, ws) is Some {
        lemma_ws_run_end_bounds(h, p);
        let q = ws_run_end(h, p);
        lemma_words_end_bounds(h, q, ws);
        lemma_ws_run_end_bounds(h, words_end(h, q, ws)->0);
    } else {
        lemma_ws_find_from_bounds(h, ws, p + 1);
    }
}

/// The span that `n` stands for in `h`: the first exact occurrence; else the
/// leftmost whitespace-tolerant match of its words; else the first run of
/// lines that equals its lines once each line is trimmed.
pub open spec fn locate_spec(h: Seq<char>, n: Seq<char>) -> Option<(int, int)> {
    match find_from(h, n, 0) {
        Some(i) => Some((i, i + n.len())),
        None => if regex_compiles(ws_pattern(words(n))) && ws_find_from(h, words(n), 0) is Some {
            ws_find_from(h, words(n), 0)
        } else {
            line_find_from(h, n, 0)
        },
    }
}

/// `h` with the span from `s` to `e` replaced by `r`.
pub open spec fn splice(h: Seq<char>, s: int, e: int, r: Seq<char>) -> Seq<char> {
    h.take(s) + r + h.skip(e)
}

/// The span of `content` that `find` stands for: its first verbatim
/// occurrence; else what the tiers locate once both texts have LF line
/// endings, taken back to positions in `content`.
pub open spec fn span_of(content: Seq<char>, find: Seq<char>) -> Option<(int, int)> {
    match find_from(content, find, 0) {
        Some(i) => Some((i, i + find.len())),
        None => match locate_spec(lf_only(content), lf_only(find)) {
            Some(m) => Some((lf_pos(content, m.0), lf_pos(content, m.1))),
            None => None,
        },
    }
}

/// The text after replacing what `find` stands for in `content` by
/// `replacement`; the rest of `content` is kept as it is. `None` when no
/// tier locates it.
pub open spec fn replaced(content: Seq<char>, find: Seq<char>, replacement: Seq<char>) -> Option<
    Seq<char>,
> {
    match span_of(content, find) {
        Some(m) => Some(splice(content, m.0, m.1, replacement)),
        None => None,
    }
}

fn ws_tier(h: &Vec<char>, n: &Vec<char>) -> (r: Option<(usize, usize)>)
    ensures
        match r {
            Some(p) => regex_compiles(ws_pattern(words(n@))) && ws_find_from(h@, words(n@), 0)
                == Some((p.0 as int, p.1 as int)) && p.0 <= p.1 <= h@.len(),
            None => !regex_compiles(ws_pattern(words(n@))) || ws_find_from(h@, words(n@), 0) is None,
        },
{
    let ws = words_of(n);
    let pattern = build_ws_pattern(&ws);
    let pattern_text = string_of(&pattern);
    let hay = string_of(h);
    proof {
        lemma_words_shape(n@);
        assert(pattern_text@ == ws_pattern(words(n@)));
    }
    match regex_split(&pattern_text, &hay) {
        Some((before, after)) => {
            let ghost m = ws_find_from(h@, words(n@), 0)->0;
            proof {
                lemma_ws_find_from_bounds(h@, words(n@), 0);
            }
            let b = chars_of(&before);
            let a = chars_of(&after);
            assert(b@.len() == m.0);
            assert(a@.len() == h@.len() - m.1);
            Some((b.len(), h.len() - a.len()))
        },
        None => None,
    }
}

/// Locates `n` in `h`, both with LF line endings, as a span of character
/// positions.
pub fn locate_chars(h: &Vec<char>, n: &Vec<char>) -> (r: Option<(usize, usize)>)
    ensures
        match r {
            Some(p) => locate_spec(h@, n@) == Some((p.0 as int, p.1 as int)) && p.0 <= p.1
                <= h@.len(),
            None => locate_spec(h@, n@) is None,
        },
{
    let hl = h.len();
    match find_exact(h, n) {
        Some(i) => {
            assert(i + n@.len() <= hl);
            return Some((i, i + n.len()));
        },
        None => {},
    }
    match ws_tier(h, n) {
        Some(p) => Some(p),
        None => find_trimmed_lines(h, n),
    }
}

/// The span of `h` that `n` stands for, in positions of `h`.
pub fn span_in(h: &Vec<char>, n: &Vec<char>) -> (r: Option<(usize, usize)>)
    ensures
        match r {
            Some(p) => span_of(h@, n@) == Some((p.0 as int, p.1 as int)) && p.0 <= p.1 <= h@.len(),
            None => span_of(h@, n@) is None,
        },
{
    let hl = h.len();
    match find_exact(h, n) {
        Some(i) => {
            assert(i + n@.len() <= hl);
            return Some((i, i + n.len()));
        },
        None => {},
    }
    let (lf, idx) = to_lf_indexed(h);
    let nl = to_lf(n);
    match locate_chars(&lf, &nl) {
        Some((s, e)) => {
            let ps: usize = if s == 0 {
                0
            } else {
                idx[s - 1] + 1
            };
            let pe: usize = if e == 0 {
                0
            } else {
                idx[e - 1] + 1
            };
            assert(ps as int == lf_pos(h@, s as int));
            assert(pe as int == lf_pos(h@, e as int));
            assert(s > 0 ==> idx@[s - 1] <= idx@[e - 1]);
            Some((ps, pe))
        },
        None => None,
    }
}

/// Locates `needle` in `haystack`, as a span of character positions of
/// `haystack`; `None` when no tier finds it.
pub fn locate(haystack: &str, needle: &str) -> (r: Option<(usize, usize)>)
    ensures
        match r {
            Some(p) => span_of(haystack@, needle@) == Some((p.0 as int, p.1 as int)),
            None => span_of(haystack@, needle@) is None,
        },
{
    span_in(&chars_of(haystack), &chars_of(needle))
}

/// Replaces what `find_text` stands for in `content` by `replacement`;
/// `None` when no tier locates it.
pub fn replace_located(content: &str, find_text: &str, replacement: &str) -> (r: Option<String>)
    ensures
        match r {
            Some(t) => replaced(content@, find_text@, replacement@) == Some(t@) && exists|
                s: int,
                e: int,
            | 0 <= s <= e <= content@.len() && t@ == content@.take(s) + replacement@ + content@.skip(e),
            None => replaced(content@, find_text@, replacement@) is None,
        },
{
    let h = chars_of(content);
    let n = chars_of(find_text);
    match span_in(&h, &n) {
        Some((s, e)) => {
            let mut out = slice_of(&h, 0, s);
            push_all(&mut out, &chars_of(replacement));
            let tail = slice_of(&h, e, h.len());
            push_all(&mut out, &tail);
            assert(h@.subrange(0, s as int) =~= h@.take(s as int));
            assert(h@.subrange(e as int, h@.len() as int) =~= h@.skip(e as int));
            Some(string_of(&out))
        },
        None => None,
    }
}

// ---------------------------------------------------------------------------
// Laws

proof fn lemma_find_from_is_first(h: Seq<char>, n: Seq<char>, i: int)
    requires
        0 <= i,
        find_from(h, n, i) is Some,
    ensures
        occurs_at(h, n, find_from(h, n, i)->0),
        i <= find_from(h, n, i)->0,
        forall|q: int| i <= q < find_from(h, n, i)->0 ==> !#[trigger] occurs_at(h, n, q),
    decreases h.len() + 1 - i,
{
    if !occurs_at(h, n, i) {
        lemma_find_from_is_first(h, n, i + 1);
    }
}

/// When the needle occurs verbatim in the text, the span replaced is its
/// first verbatim occurrence, whatever a looser tier would find, and the
/// rest of the text is kept as it is.
pub proof fn lemma_exact_match_first(h: Seq<char>, n: Seq<char>, r: Seq<char>, p: int)
    requires
        occurs_at(h, n, p),
    ensures
        span_of(h, n) is Some,
        ({
            let (s, e) = span_of(h, n)->0;
            &&& e == s + n.len()
            &&& s <= p
            &&& h.subrange(s, e) == n
            &&& forall|q: int| 0 <= q < s ==> !#[trigger] occurs_at(h, n, q)
            &&& replaced(h, n, r) == Some(h.take(s) + r + h.skip(e))
        }),
{
    lemma_find_from_found(h, n, 0, p);
    lemma_find_from_is_first(h, n, 0);
}

proof fn lemma_line_find_from_found(h: Seq<char>, n: Seq<char>, i: int, w: int)
    requires
        0 <= i <= w,
        window_matches(h, n, w),
    ensures
        line_find_from(h, n, i) is Some,
    decreases w - i,
{
    if !window_matches(h, n, i) {
        lemma_line_find_from_found(h, n, i + 1, w);
    }
}

/// A needle whose words occur in the haystack in the same order, separated
/// by any whitespace, is located, as long as the pattern built from its
/// words compiles.
pub proof fn lemma_whitespace_tolerance(c: Seq<char>, f: Seq<char>, q: int)
    requires
        0 <= q <= lf_only(c).len(),
        ws_match_from(lf_only(c), q, words(lf_only(f))) is Some,
        regex_compiles(ws_pattern(words(lf_only(f)))),
    ensures
        span_of(c, f) is Some,
{
    lemma_ws_find_from_found(lf_only(c), words(lf_only(f)), 0, q);
}

/// A needle whose lines, once trimmed, equal a run of the haystack's trimmed
/// lines is located.
pub proof fn lemma_indentation_tolerance(c: Seq<char>, f: Seq<char>, w: int)
    requires
        window_matches(lf_only(c), lf_only(f), w),
    ensures
        span_of(c, f) is Some,
{
    lemma_line_find_from_found(lf_only(c), lf_only(f), 0, w);
}

/// The index of the first whitespace character at or after `i` (or the
/// length, if there is none).
pub open spec fn word_end(s: Seq<char>, i: int) -> int
    decreases s.len() - i,
{
    if i < 0 || i >= s.len() {
        i
    } else if is_ws(s[i]) {
        i
    } else {
        word_end(s, i + 1)
    }
}

proof fn lemma_word_end_bounds(s: Seq<char>, i: int)
    requires
        0 <= i <= s.len(),
    ensures
        i <= word_end(s, i) <= s.len(),
        forall|k: int| i <= k < word_end(s, i) ==> !is_ws(#[trigger] s[k]),
        word_end(s, i) < s.len() ==> is_ws(s[word_end(s, i)]),
    decreases s.len() - i,
{
    if i < s.len() && !is_ws(s[i]) {
        lemma_word_end_bounds(s, i + 1);
    }
}

proof fn lemma_words_concat(a: Seq<char>, b: Seq<char>)
    requires
        a.len() == 0 || b.len() == 0 || is_ws(a.last()) || is_ws(b[0]),
    ensures
        words(a + b) == words(a) + words(b),
    decreases b.len(),
{
    if b.len() == 0 {
        assert(a + b =~= a);
        assert(words(a) + words(b) =~= words(a));
    } else if a.len() == 0 {
        assert(a + b =~= b);
        assert(words(a) + words(b) =~= words(b));
    } else {
        let ab = a + b;
        assert(ab.drop_last() =~= a + b.drop_last());
        assert(ab.last() == b.last());
        lemma_words_concat(a, b.drop_last());
        let w = words(a + b.drop_last());
        if b.len() >= 2 {
            assert(ab[ab.len() - 2] == b[b.len() - 2]);
            assert(b.drop_last()[0] == b[0]);
            if !is_ws(b.last()) && !is_ws(b[b.len() - 2]) {
                lemma_words_shape(b.drop_last());
                assert(b.drop_last().last() == b[b.len() - 2]);
                assert(words(a) + words(b) =~= w.update(w.len() - 1, w.last().push(b.last())));
            } else if !is_ws(b.last()) {
                assert(words(a) + words(b) =~= w.push(seq![b.last()]));
            } else {
                assert(words(a) + words(b) =~= w);
            }
        } else {
            assert(ab[ab.len() - 2] == a.last());
            assert(b.drop_last() =~= Seq::<char>::empty());
            assert(a + b.drop_last() =~= a);
            assert(words(b.drop_last()) =~= Seq::<Seq<char>>::empty());
            if !is_ws(b.last()) {
                assert(words(a) + words(b) =~= w.push(seq![b.last()]));
            } else {
                assert(words(a) + words(b) =~= w);
            }
        }
    }
}

proof fn lemma_words_blank(s: Seq<char>)
    requires
        forall|k: int| 0 <= k < s.len() ==> is_ws(#[trigger] s[k]),
    ensures
        words(s) == Seq::<Seq<char>>::empty(),
    decreases s.len(),
{
    if s.len() > 0 {
        lemma_words_blank(s.drop_last());
    }
}

proof fn lemma_words_single(s: Seq<char>)
    requires
        s.len() > 0,
        forall|k: int| 0 <= k < s.len() ==> !is_ws(#[trigger] s[k]),
    ensures
        words(s) == seq![s],
    decreases s.len(),
{
    if s.len() == 1 {
        assert(s.drop_last() =~= Seq::<char>::empty());
        assert(words(s.drop_last()) =~= Seq::<Seq<char>>::empty());
        assert(seq![s.last()] =~= s);
        assert(words(s) =~= seq![s]);
    } else {
        lemma_words_single(s.drop_last());
        assert(!is_ws(s[s.len() - 2]));
        assert(!is_ws(s.last()));
        assert(s.drop_last().push(s.last()) =~= s);
        let w = words(s.drop_last());
        assert(w.update(w.len() - 1, w.last().push(s.last())) =~= seq![s]);
    }
}

/// The words of `t`, taken from the front: its first word, then the words
/// of what follows it.
proof fn lemma_words_front(t: Seq<char>)
    requires
        ws_run_end(t, 0) < t.len(),
    ensures
        ({
            let a = ws_run_end(t, 0);
            let b = word_end(t, a);
            &&& a < b <= t.len()
            &&& words(t) == seq![t.subrange(a, b)] + words(t.skip(b))
            &&& b < t.len() ==> is_ws(t[b])
        }),
{
    let a = ws_run_end(t, 0);
    lemma_ws_run_end_bounds(t, 0);
    lemma_word_end_bounds(t, a);
    let b = word_end(t, a);
    let pre = t.subrange(0, a);
    let w = t.subrange(a, b);
    let rest = t.skip(b);
    assert(pre + w + rest =~= t);
    lemma_words_blank(pre);
    lemma_words_single(w);
    lemma_words_concat(pre, w);
    assert(pre + w =~= t.subrange(0, b));
    if rest.len() > 0 {
        assert(rest[0] == t[b]);
    }
    lemma_words_concat(pre + w, rest);
    assert(words(pre) + words(w) =~= seq![w]);
}

proof fn lemma_ws_run_end_shift(h: Seq<char>, p: int, e: int, k: int)
    requires
        0 <= p <= p + k <= e <= h.len(),
        ws_run_end(h.subrange(p, e), k) < e - p,
    ensures
        ws_run_end(h, p + k) == p + ws_run_end(h.subrange(p, e), k),
    decreases e - p - k,
{
    let t = h.subrange(p, e);
    assert(t[k] == h[p + k]);
    if is_ws(t[k]) {
        lemma_ws_run_end_shift(h, p, e, k + 1);
    }
}

/// A span whose words are `ws` (one or more) is matched, from its start, by
/// the words separated by whitespace.
proof fn lemma_words_matched(h: Seq<char>, p: int, e: int, ws: Seq<Seq<char>>)
    requires
        0 <= p <= e <= h.len(),
        words(h.subrange(p, e)) == ws,
        ws.len() > 0,
    ensures
        words_end(h, ws_run_end(h, p), ws) is Some,
    decreases e - p,
{
    let t = h.subrange(p, e);
    lemma_ws_run_end_bounds(t, 0);
    if ws_run_end(t, 0) >= t.len() {
        lemma_words_blank(t);
    }
    lemma_words_front(t);
    let a = ws_run_end(t, 0);
    let b = word_end(t, a);
    lemma_ws_run_end_shift(h, p, e, 0);
    assert(ws_run_end(h, p) == p + a);
    assert(ws[0] == t.subrange(a, b));
    assert(h.subrange(p + a, p + b) =~= t.subrange(a, b));
    assert(p + a + ws[0].len() == p + b);
    if ws.len() > 1 {
        let rest = t.skip(b);
        assert(words(rest) =~= ws.drop_first());
        assert(rest =~= h.subrange(p + b, e));
        assert(b < t.len()) by {
            if b == t.len() {
                assert(rest.len() == 0);
            }
        }
        assert(h[p + b] == t[b]);
        lemma_ws_run_end_bounds(h, p + b + 1);
        assert(ws_run_end(h, p + b) > p + b);
        lemma_words_matched(h, p + b, e, ws.drop_first());
    }
}

/// A needle whose words (one or more) are the words of some span of the
/// text is located, once both have LF line endings, as long as the pattern
/// built from its words compiles.
pub proof fn lemma_same_words_located(c: Seq<char>, f: Seq<char>, s: int, e: int)
    requires
        0 <= s <= e <= lf_only(c).len(),
        words(lf_only(c).subrange(s, e)) == words(lf_only(f)),
        words(lf_only(f)).len() > 0,
        regex_compiles(ws_pattern(words(lf_only(f)))),
    ensures
        span_of(c, f) is Some,
{
    lemma_words_matched(lf_only(c), s, e, words(lf_only(f)));
    lemma_whitespace_tolerance(c, f, s);
}

} // verus!

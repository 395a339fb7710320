//! Character-level helpers shared by the parser and the matcher.

use vstd::prelude::*;
use vstd::std_specs::iter::IteratorSpec;

verus! {

/// A Unicode `White_Space` character, the set that `char::is_whitespace`
/// and the regex class `\s` both use.
pub open spec fn is_ws(c: char) -> bool {
    let u = c as u32;
    (9 <= u && u <= 13) || u == 32 || u == 0x85 || u == 0xa0 || u == 0x1680 || (0x2000 <= u
        && u <= 0x200a) || u == 0x2028 || u == 0x2029 || u == 0x202f || u == 0x205f || u == 0x3000
}

pub fn is_ws_char(c: char) -> (r: bool)
    ensures
        r == is_ws(c),
{
    let u = c as u32;
    (9 <= u && u <= 13) || u == 32 || u == 0x85 || u == 0xa0 || u == 0x1680 || (0x2000 <= u
        && u <= 0x200a) || u == 0x2028 || u == 0x2029 || u == 0x202f || u == 0x205f || u == 0x3000
}

/// The characters of `s` in order.
pub(crate) fn chars_of(s: &str) -> (r: Vec<char>)
    ensures
        r@ == s@,
{
    broadcast use vstd::string::group_string_axioms;

    let mut it = s.chars();
    let mut r: Vec<char> = Vec::new();
    loop
        invariant
            it.obeys_prophetic_iter_laws(),
            it.decrease() is Some,
            r@ + it.remaining() == s@,
        decreases it.decrease()->0,
    {
        match it.next() {
            Some(c) => {
                r.push(c);
                assert(r@ + it.remaining() =~= s@);
            },
            None => {
                assert(r@ =~= s@);
                return r;
            },
        }
    }
}

/// Relies on `String: FromIterator<&char>`: the string of exactly these characters.
#[verifier::external_body]
pub(crate) fn string_of(v: &Vec<char>) -> (r: String)
    ensures
        r@ == v@,
{
    v.iter().collect()
}

/// Whether the character at `i` is a carriage return directly followed by a
/// line feed.
pub open spec fn dropped_cr(s: Seq<char>, i: int) -> bool {
    s[i] == '\r' && i + 1 < s.len() && s[i + 1] == '\n'
}

/// The positions below `n` of the characters that LF normalization keeps.
pub open spec fn kept_upto(s: Seq<char>, n: int) -> Seq<int>
    decreases n,
{
    if n <= 0 {
        Seq::empty()
    } else if dropped_cr(s, n - 1) {
        kept_upto(s, n - 1)
    } else {
        kept_upto(s, n - 1).push(n - 1)
    }
}

/// The positions in `s` of the characters of `lf_only(s)`.
pub open spec fn kept(s: Seq<char>) -> Seq<int> {
    kept_upto(s, s.len() as int)
}

/// The text with every carriage return that directly precedes a line feed removed.
pub open spec fn lf_only(s: Seq<char>) -> Seq<char> {
    kept(s).map_values(|j: int| s[j])
}

/// The position in `s` that position `k` of `lf_only(s)` stands for: just
/// after the character kept before it.
pub open spec fn lf_pos(s: Seq<char>, k: int) -> int {
    if k <= 0 {
        0
    } else {
        kept(s)[k - 1] + 1
    }
}

/// The index of the first character at or after `i` that is not whitespace
/// (or the length, if there is none).
pub open spec fn ws_run_end(s: Seq<char>, i: int) -> int
    decreases s.len() - i,
{
    if i < 0 || i >= s.len() {
        i
    } else if is_ws(s[i]) {
        ws_run_end(s, i + 1)
    } else {
        i
    }
}

/// The index just past the last character before `j` that is not whitespace
/// (or 0, if there is none).
pub open spec fn ws_trail_start(s: Seq<char>, j: int) -> int
    decreases j,
{
    if j <= 0 || j > s.len() {
        j
    } else if is_ws(s[j - 1]) {
        ws_trail_start(s, j - 1)
    } else {
        j
    }
}

/// `s` without leading and trailing whitespace.
pub open spec fn trim(s: Seq<char>) -> Seq<char> {
    let a = ws_run_end(s, 0);
    let b = ws_trail_start(s, s.len() as int);
    if a < b {
        s.subrange(a, b)
    } else {
        Seq::empty()
    }
}

pub proof fn lemma_ws_run_end_bounds(s: Seq<char>, i: int)
    requires
        0 <= i <= s.len(),
    ensures
        i <= ws_run_end(s, i) <= s.len(),
        forall|k: int| i <= k < ws_run_end(s, i) ==> is_ws(#[trigger] s[k]),
        ws_run_end(s, i) < s.len() ==> !is_ws(s[ws_run_end(s, i)]),
    decreases s.len() - i,
{
    if i < s.len() && is_ws(s[i]) {
        lemma_ws_run_end_bounds(s, i + 1);
    }
}

/// Removes every carriage return that directly precedes a line feed, and
/// gives the position in `s` of each character kept.
pub fn to_lf_indexed(s: &Vec<char>) -> (r: (Vec<char>, Vec<usize>))
    ensures
        r.0@ == lf_only(s@),
        r.1@.len() == r.0@.len(),
        forall|k: int| 0 <= k < r.1@.len() ==> #[trigger] r.1@[k] as int == kept(s@)[k],
        forall|k: int| 0 <= k < r.1@.len() ==> #[trigger] r.1@[k] < s@.len(),
        forall|a: int, b: int| #![trigger r.1@[a], r.1@[b]] 0 <= a < b < r.1@.len() ==> r.1@[a] < r.1@[b],
{
    let mut out: Vec<char> = Vec::new();
    let mut idx: Vec<usize> = Vec::new();
    let n = s.len();
    let mut i: usize = 0;
    while i < n
        invariant
            n == s@.len(),
            i <= n,
            out@ == kept_upto(s@, i as int).map_values(|j: int| s@[j]),
            idx@.len() == kept_upto(s@, i as int).len(),
            forall|k: int| 0 <= k < idx@.len() ==> #[trigger] idx@[k] as int == kept_upto(s@, i as int)[k],
            forall|k: int| 0 <= k < idx@.len() ==> #[trigger] idx@[k] < i,
            forall|a: int, b: int| #![trigger idx@[a], idx@[b]] 0 <= a < b < idx@.len() ==> idx@[a] < idx@[b],
        decreases n - i,
    {
        let drop = s[i] == '\r' && i + 1 < n && s[i + 1] == '\n';
        if !drop {
            let ghost before = out@;
            out.push(s[i]);
            idx.push(i);
            assert(out@ =~= kept_upto(s@, i + 1).map_values(|j: int| s@[j]));
        }
        i = i + 1;
    }
    (out, idx)
}

/// Removes every carriage return that directly precedes a line feed.
pub fn to_lf(s: &Vec<char>) -> (r: Vec<char>)
    ensures
        r@ == lf_only(s@),
{
    to_lf_indexed(s).0
}

/// The characters of `s` strictly between `lo` and `hi`.
pub fn slice_of(s: &Vec<char>, lo: usize, hi: usize) -> (r: Vec<char>)
    requires
        lo <= hi <= s@.len(),
    ensures
        r@ == s@.subrange(lo as int, hi as int),
{
    let mut r: Vec<char> = Vec::new();
    let mut i: usize = lo;
    while i < hi
        invariant
            lo <= i <= hi <= s@.len(),
            r@ == s@.subrange(lo as int, i as int),
        decreases hi - i,
    {
        r.push(s[i]);
        i = i + 1;
        assert(r@ =~= s@.subrange(lo as int, i as int));
    }
    r
}

/// Copies `t` onto the end of `r`.
pub fn push_all(r: &mut Vec<char>, t: &Vec<char>)
    ensures
        final(r)@ == old(r)@ + t@,
{
    let mut i: usize = 0;
    while i < t.len()
        invariant
            i <= t@.len(),
            r@ == old(r)@ + t@.take(i as int),
        decreases t@.len() - i,
    {
        r.push(t[i]);
        i = i + 1;
        assert(r@ =~= old(r)@ + t@.take(i as int));
    }
    assert(t@.take(t@.len() as int) =~= t@);
}

/// `s` without leading and trailing whitespace.
pub fn trimmed(s: &Vec<char>) -> (r: Vec<char>)
    ensures
        r@ == trim(s@),
{
    let n = s.len();
    let mut a: usize = 0;
    while a < n && is_ws_char(s[a])
        invariant
            a <= n == s@.len(),
            ws_run_end(s@, 0) == ws_run_end(s@, a as int),
        decreases n - a,
    {
        a = a + 1;
    }
    let mut b: usize = n;
    while b > 0 && is_ws_char(s[b - 1])
        invariant
            b <= n == s@.len(),
            ws_trail_start(s@, n as int) == ws_trail_start(s@, b as int),
        decreases b,
    {
        b = b - 1;
    }
    if a < b {
        slice_of(s, a, b)
    } else {
        Vec::new()
    }
}

} // verus!

//! Character-level helpers: lines, whitespace-separated words, and searches.
use vstd::prelude::*;
use vstd::string::StrSliceExecFns;

verus! {

/// Index of the first character of `s` at or after `i` that satisfies `p`, or `s.len()`
/// when there is none.
pub open spec fn find_from(s: Seq<char>, i: int, p: spec_fn(char) -> bool) -> int
    decreases s.len() - i,
{
    if i < 0 || i >= s.len() {
        s.len() as int
    } else if p(s[i]) {
        i
    } else {
        find_from(s, i + 1, p)
    }
}

/// Skipping characters that fail `p` does not move the next match.
pub proof fn lemma_find_from_skip(s: Seq<char>, a: int, b: int, p: spec_fn(char) -> bool)
    requires
        0 <= a <= b <= s.len(),
        forall|k: int| a <= k < b ==> !p(s[k]),
    ensures
        find_from(s, a, p) == find_from(s, b, p),
    decreases b - a,
{
    if a < b {
        lemma_find_from_skip(s, a + 1, b, p);
    }
}

pub proof fn lemma_find_from_bounds(s: Seq<char>, i: int, p: spec_fn(char) -> bool)
    requires
        0 <= i <= s.len(),
    ensures
        i <= find_from(s, i, p) <= s.len(),
        find_from(s, i, p) < s.len() ==> p(s[find_from(s, i, p)]),
        forall|k: int| i <= k < find_from(s, i, p) ==> !p(s[k]),
    decreases s.len() - i,
{
    if i < s.len() && !p(s[i]) {
        lemma_find_from_bounds(s, i + 1, p);
    }
}

/// Index of the first `'\n'` in `s` at or after `i`, or `s.len()` when there is none.
pub open spec fn newline_from(s: Seq<char>, i: int) -> int {
    find_from(s, i, |c: char| c == '\n')
}

/// A line's text without one trailing carriage return.
pub open spec fn drop_cr(l: Seq<char>) -> Seq<char> {
    if l.len() > 0 && l.last() == '\r' {
        l.drop_last()
    } else {
        l
    }
}

/// The lines of `s` from index `i` on. A line ends at `'\n'`, and a `'\r'` just before that
/// `'\n'` is not part of it; the last line may end without `'\n'`, and then keeps all its text.
/// An input that ends with `'\n'` has no empty line after it.
pub open spec fn lines_from(s: Seq<char>, i: int) -> Seq<Seq<char>>
    decreases s.len() - i,
{
    if i < 0 || i >= s.len() {
        seq![]
    } else {
        let e = newline_from(s, i);
        if e >= s.len() {
            seq![s.subrange(i, s.len() as int)]
        } else {
            proof {
                lemma_find_from_bounds(s, i, |c: char| c == '\n');
            }
            seq![drop_cr(s.subrange(i, e))] + lines_from(s, e + 1)
        }
    }
}

/// The lines of `s`, as `str::lines` yields them.
pub open spec fn lines(s: Seq<char>) -> Seq<Seq<char>> {
    lines_from(s, 0)
}

/// Copies the characters `from..to` of `s` into a new `String`.
pub(crate) fn substring(s: &str, from: usize, to: usize) -> (r: String)
    requires
        from <= to <= s@.len(),
    ensures
        r@ == s@.subrange(from as int, to as int),
{
    s.substring_char(from, to).to_owned()
}

/// Splits `s` into its lines.
pub fn split_lines(s: &str) -> (r: Vec<String>)
    ensures
        r@.map_values(|l: String| l@) == lines(s@),
{
    let n = s.unicode_len();
    let mut out: Vec<String> = Vec::new();
    let mut start: usize = 0;
    let mut i: usize = 0;
    while i < n
        invariant
            n == s@.len(),
            start <= i <= n,
            forall|k: int| start <= k < i ==> s@[k] != '\n',
            lines(s@) == out@.map_values(|l: String| l@) + lines_from(s@, start as int),
        decreases n - i,
    {
        let c = s.get_char(i);
        if c == '\n' {
            proof {
                lemma_find_from_skip(s@, start as int, i as int, |c: char| c == '\n');
            }
            let mut end = i;
            if end > start && s.get_char(end - 1) == '\r' {
                end = end - 1;
            }
            let line = substring(s, start, end);
            proof {
                assert(line@ =~= drop_cr(s@.subrange(start as int, i as int)));
                assert(lines_from(s@, start as int) == seq![line@] + lines_from(s@, i + 1));
            }
            let ghost before = out@.map_values(|l: String| l@);
            out.push(line);
            proof {
                assert(out@.map_values(|l: String| l@) =~= before.push(line@));
                assert(lines(s@) =~= out@.map_values(|l: String| l@) + lines_from(s@, i + 1));
            }
            start = i + 1;
        }
        i = i + 1;
    }
    proof {
        lemma_find_from_skip(s@, start as int, n as int, |c: char| c == '\n');
    }
    if start < n {
        let line = substring(s, start, n);
        let ghost before = out@.map_values(|l: String| l@);
        out.push(line);
        proof {
            assert(out@.map_values(|l: String| l@) =~= before.push(line@));
        }
    }
    proof {
        assert(lines(s@) =~= out@.map_values(|l: String| l@));
    }
    out
}

/// Whether `c` has Unicode's White_Space property.
pub open spec fn is_white_space(c: char) -> bool {
    let u = c as u32;
    ||| 0x9 <= u <= 0xd
    ||| u == 0x20
    ||| u == 0x85
    ||| u == 0xa0
    ||| u == 0x1680
    ||| 0x2000 <= u <= 0x200a
    ||| u == 0x2028
    ||| u == 0x2029
    ||| u == 0x202f
    ||| u == 0x205f
    ||| u == 0x3000
}

/// Relies on `char::is_whitespace`, which is true exactly for the characters with Unicode's
/// White_Space property.
#[verifier::external_body]
fn char_is_whitespace(c: char) -> (r: bool)
    ensures
        r == is_white_space(c),
{
    c.is_whitespace()
}

/// The maximal runs of non-whitespace characters of `s` that start at or after `i`
/// (for `i` at the start of `s` or just after a whitespace character).
pub open spec fn words_from(s: Seq<char>, i: int) -> Seq<Seq<char>>
    decreases s.len() - i,
{
    if i < 0 || i >= s.len() {
        seq![]
    } else {
        let b = find_from(s, i, |c: char| !is_white_space(c));
        if b >= s.len() {
            seq![]
        } else {
            let e = find_from(s, b, |c: char| is_white_space(c));
            proof {
                lemma_find_from_bounds(s, i, |c: char| !is_white_space(c));
                lemma_find_from_bounds(s, b + 1, |c: char| is_white_space(c));
            }
            seq![s.subrange(b, e)] + words_from(s, e)
        }
    }
}

/// The whitespace-separated words of `s`, as `str::split_whitespace` yields them.
pub open spec fn words(s: Seq<char>) -> Seq<Seq<char>> {
    words_from(s, 0)
}

/// Splits `s` into its whitespace-separated words.
pub fn split_whitespace(s: &str) -> (r: Vec<String>)
    ensures
        r@.map_values(|w: String| w@) == words(s@),
{
    let n = s.unicode_len();
    let mut out: Vec<String> = Vec::new();
    let mut i: usize = 0;
    while i < n
        invariant
            n == s@.len(),
            i <= n,
            words(s@) == out@.map_values(|w: String| w@) + words_from(s@, i as int),
        decreases n - i,
    {
        let i0 = i;
        while i < n && char_is_whitespace(s.get_char(i))
            invariant
                n == s@.len(),
                i0 <= i <= n,
                forall|k: int| i0 <= k < i ==> is_white_space(s@[k]),
            decreases n - i,
        {
            i = i + 1;
        }
        proof {
            lemma_find_from_skip(s@, i0 as int, i as int, |c: char| !is_white_space(c));
        }
        let b = i;
        while i < n && !char_is_whitespace(s.get_char(i))
            invariant
                n == s@.len(),
                b <= i <= n,
                forall|k: int| b <= k < i ==> !is_white_space(s@[k]),
            decreases n - i,
        {
            i = i + 1;
        }
        if b < n {
            proof {
                assert(find_from(s@, i0 as int, |c: char| !is_white_space(c)) == b);
                lemma_find_from_skip(s@, b as int, i as int, |c: char| is_white_space(c));
                assert(find_from(s@, b as int, |c: char| is_white_space(c)) == i);
            }
            let w = substring(s, b, i);
            let ghost before = out@.map_values(|w: String| w@);
            out.push(w);
            proof {
                assert(out@.map_values(|w: String| w@) =~= before.push(w@));
                assert(words(s@) =~= out@.map_values(|w: String| w@) + words_from(s@, i as int));
            }
        } else {
            proof {
                assert(words_from(s@, i0 as int) =~= seq![]);
                assert(words_from(s@, i as int) =~= seq![]);
            }
        }
    }
    proof {
        assert(words(s@) =~= out@.map_values(|w: String| w@));
    }
    out
}

/// Whether the characters of `a` and `b` are the same.
pub fn str_eq(a: &str, b: &str) -> (r: bool)
    ensures
        r == (a@ == b@),
{
    let n = a.unicode_len();
    if n != b.unicode_len() {
        return false;
    }
    let mut i: usize = 0;
    while i < n
        invariant
            n == a@.len(),
            n == b@.len(),
            i <= n,
            forall|k: int| 0 <= k < i ==> a@[k] == b@[k],
        decreases n - i,
    {
        if a.get_char(i) != b.get_char(i) {
            return false;
        }
        i = i + 1;
    }
    proof {
        assert(a@ =~= b@);
    }
    true
}

} // verus!

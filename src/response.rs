//! The parsed response and the line-by-line parser that builds it.
use vstd::prelude::*;
use vstd::string::StrSliceExecFns;
use crate::text::{
    find_from, lemma_find_from_bounds, lemma_find_from_skip, lines, split_lines,
    split_whitespace, str_eq, substring, words,
};
use crate::laws::short_status_line_fails;
use crate::vocabulary::{reason_of, status_of, version_of, ReasonPharse, Status, Version};

verus! {

/// The fields of a response as mathematical values.
pub struct ResponseView {
    pub version: Version,
    pub status: Status,
    pub reason: ReasonPharse,
    pub headers: Map<Seq<char>, Seq<char>>,
    pub msg_body: Seq<char>,
}

/// Why a response text could not be parsed.
#[derive(Debug, Clone, Copy, PartialEq, Eq, Structural)]
pub enum ParseError {
    /// A status line holds fewer than three whitespace-separated tokens.
    MalformedStatusLine,
}

/// A parsed response. Each header name occurs at most once in `headers`.
#[derive(Debug, PartialEq, Eq)]
pub struct HttpResponse {
    pub version: Version,
    pub status: Status,
    pub reason: ReasonPharse,
    pub headers: Vec<(String, String)>,
    pub msg_body: String,
}

/// The mapping that a list of header entries stands for; a later entry overrides an
/// earlier one with the same name.
pub open spec fn header_map(e: Seq<(String, String)>) -> Map<Seq<char>, Seq<char>>
    decreases e.len(),
{
    if e.len() == 0 {
        Map::empty()
    } else {
        header_map(e.drop_last()).insert(e.last().0@, e.last().1@)
    }
}

/// No two entries have the same name.
pub open spec fn names_distinct(e: Seq<(String, String)>) -> bool {
    forall|i: int, j: int|
        0 <= i < e.len() && 0 <= j < e.len() && i != j ==> e[i].0@ != e[j].0@
}

impl HttpResponse {
    /// Header names are unique.
    pub open spec fn wf(&self) -> bool {
        names_distinct(self.headers@)
    }
}

impl View for HttpResponse {
    type V = ResponseView;

    open spec fn view(&self) -> ResponseView {
        ResponseView {
            version: self.version,
            status: self.status,
            reason: self.reason,
            headers: header_map(self.headers@),
            msg_body: self.msg_body@,
        }
    }
}

/// Index of the first `':'` in `l`, or `l.len()` when there is none.
pub open spec fn colon_at(l: Seq<char>) -> int {
    find_from(l, 0, |c: char| c == ':')
}

/// The text of a header line before its first `':'` (all of it when there is none).
pub open spec fn header_key(l: Seq<char>) -> Seq<char> {
    l.take(colon_at(l))
}

/// The text of a header line after its first `':'`, kept as it is (empty when there is none).
pub open spec fn header_value(l: Seq<char>) -> Seq<char> {
    if colon_at(l) < l.len() {
        l.skip(colon_at(l) + 1)
    } else {
        seq![]
    }
}

/// A line holding the protocol marker `HTTP` is a status line.
pub open spec fn is_status_line(l: Seq<char>) -> bool {
    exists|k: int| 0 <= k && k + 4 <= l.len() && #[trigger] l.subrange(k, k + 4) == seq!['H', 'T', 'T', 'P']
}

/// A line that is not a status line and holds a `':'` is a header line.
pub open spec fn is_header_line(l: Seq<char>) -> bool {
    !is_status_line(l) && l.contains(':')
}

/// The state before any line is read.
pub open spec fn initial_view() -> ResponseView {
    ResponseView {
        version: Version::Uninitialized,
        status: Status::Uninitialized,
        reason: ReasonPharse::Uninitialized,
        headers: Map::empty(),
        msg_body: seq![],
    }
}

/// Reads one line into the state; `None` is a parse that has failed.
pub open spec fn apply_line(r: Option<ResponseView>, l: Seq<char>) -> Option<ResponseView> {
    match r {
        None => None,
        Some(v) => if is_status_line(l) {
            let w = words(l);
            if w.len() < 3 {
                None
            } else {
                Some(
                    ResponseView {
                        version: version_of(w[0]),
                        status: status_of(w[1]),
                        reason: reason_of(w[2]),
                        ..v
                    },
                )
            }
        } else if is_header_line(l) {
            Some(ResponseView { headers: v.headers.insert(header_key(l), header_value(l)), ..v })
        } else if l.len() == 0 {
            Some(v)
        } else {
            Some(ResponseView { msg_body: l, ..v })
        },
    }
}

/// The result of reading the lines `ls` in order.
pub open spec fn parse_lines(ls: Seq<Seq<char>>) -> Option<ResponseView>
    decreases ls.len(),
{
    if ls.len() == 0 {
        Some(initial_view())
    } else {
        apply_line(parse_lines(ls.drop_last()), ls.last())
    }
}

/// The result of parsing the response text `s`.
pub open spec fn parse_response(s: Seq<char>) -> Option<ResponseView> {
    parse_lines(lines(s))
}

/// Whether `l` holds the protocol marker `HTTP`.
fn has_protocol_marker(l: &str) -> (r: bool)
    ensures
        r == is_status_line(l@),
{
    let n = l.unicode_len();
    let mut k: usize = 0;
    while n >= 4 && k <= n - 4
        invariant
            n == l@.len(),
            k <= n,
            forall|j: int| 0 <= j < k && j + 4 <= n ==> #[trigger] l@.subrange(j, j + 4) != seq!['H', 'T', 'T', 'P'],
        decreases n - k,
    {
        if l.get_char(k) == 'H' && l.get_char(k + 1) == 'T' && l.get_char(k + 2) == 'T'
            && l.get_char(k + 3) == 'P' {
            proof {
                assert(l@.subrange(k as int, k + 4) =~= seq!['H', 'T', 'T', 'P']);
            }
            return true;
        }
        proof {
            assert(l@.subrange(k as int, k + 4)[0] == l@[k as int]);
            assert(l@.subrange(k as int, k + 4)[1] == l@[k + 1]);
            assert(l@.subrange(k as int, k + 4)[2] == l@[k + 2]);
            assert(l@.subrange(k as int, k + 4)[3] == l@[k + 3]);
        }
        k = k + 1;
    }
    false
}

/// Index of the first `':'` in `l`, or its length when there is none.
fn find_colon(l: &str) -> (r: usize)
    ensures
        r == colon_at(l@),
        r <= l@.len(),
{
    let n = l.unicode_len();
    let mut i: usize = 0;
    while i < n && l.get_char(i) != ':'
        invariant
            n == l@.len(),
            i <= n,
            forall|k: int| 0 <= k < i ==> l@[k] != ':',
        decreases n - i,
    {
        i = i + 1;
    }
    proof {
        lemma_find_from_skip(l@, 0, i as int, |c: char| c == ':');
    }
    i
}

/// Splits a header line at its first `':'` into name and value. The value keeps any
/// leading space; without a `':'` the whole line is the name and the value is empty.
pub fn process_header_line(s: &str) -> (r: (String, String))
    ensures
        r.0@ == header_key(s@),
        r.1@ == header_value(s@),
{
    let n = s.unicode_len();
    let c = find_colon(s);
    let key = substring(s, 0, c);
    let value = if c < n {
        substring(s, c + 1, n)
    } else {
        String::new()
    };
    (key, value)
}

/// Reads version, status and reason from the first three whitespace-separated tokens of a
/// status line.
pub fn process_response_line(s: &str) -> (r: (Version, Status, ReasonPharse))
    requires
        words(s@).len() >= 3,
    ensures
        r == (version_of(words(s@)[0]), status_of(words(s@)[1]), reason_of(words(s@)[2])),
{
    let w = split_whitespace(s);
    proof {
        assert(w@.map_values(|x: String| x@)[0] == w@[0]@);
        assert(w@.map_values(|x: String| x@)[1] == w@[1]@);
        assert(w@.map_values(|x: String| x@)[2] == w@[2]@);
    }
    let version = Version::from(w[0].as_str());
    let status = Status::from(w[1].as_str());
    let reason = ReasonPharse::from(w[2].as_str());
    (version, status, reason)
}

/// Under distinct names, the mapping holds exactly the entries' names, each with its value.
proof fn lemma_header_map_entries(e: Seq<(String, String)>)
    requires
        names_distinct(e),
    ensures
        forall|k: Seq<char>|
            header_map(e).contains_key(k) <==> exists|i: int| 0 <= i < e.len() && e[i].0@ == k,
        forall|i: int| 0 <= i < e.len() ==> header_map(e)[#[trigger] e[i].0@] == e[i].1@,
    decreases e.len(),
{
    if e.len() > 0 {
        let p = e.drop_last();
        assert(names_distinct(p));
        lemma_header_map_entries(p);
        assert forall|k: Seq<char>|
            header_map(e).contains_key(k) implies exists|i: int| 0 <= i < e.len() && e[i].0@ == k by {
            if k != e.last().0@ {
                assert(header_map(p).contains_key(k));
                let i = choose|i: int| 0 <= i < p.len() && p[i].0@ == k;
                assert(e[i] == p[i]);
            } else {
                assert(e[e.len() - 1].0@ == k);
            }
        }
        assert forall|k: Seq<char>|
            (exists|i: int| 0 <= i < e.len() && e[i].0@ == k) implies header_map(e).contains_key(k) by {
            let i = choose|i: int| 0 <= i < e.len() && e[i].0@ == k;
            if i < e.len() - 1 {
                assert(p[i] == e[i]);
            }
        }
        assert forall|i: int| 0 <= i < e.len() implies header_map(e)[#[trigger] e[i].0@] == e[i].1@ by {
            if i < e.len() - 1 {
                assert(p[i] == e[i]);
                assert(e[i].0@ != e.last().0@);
            }
        }
    }
}

/// Replacing the value of an entry keeps the names and updates the mapping.
proof fn lemma_header_map_update(e: Seq<(String, String)>, j: int, p: (String, String))
    requires
        names_distinct(e),
        0 <= j < e.len(),
        p.0@ == e[j].0@,
    ensures
        header_map(e.update(j, p)) == header_map(e).insert(p.0@, p.1@),
    decreases e.len(),
{
    let u = e.update(j, p);
    if j == e.len() - 1 {
        assert(u.drop_last() =~= e.drop_last());
        assert(header_map(u) =~= header_map(e).insert(p.0@, p.1@));
    } else {
        assert(u.drop_last() =~= e.drop_last().update(j, p));
        assert(names_distinct(e.drop_last()));
        lemma_header_map_update(e.drop_last(), j, p);
        assert(e.last().0@ != e[j].0@);
        assert(header_map(u) =~= header_map(e).insert(p.0@, p.1@));
    }
}

/// Sets the value of header `key`, replacing the entry of that name if there is one.
fn insert_header(headers: &mut Vec<(String, String)>, key: String, value: String)
    requires
        names_distinct(old(headers)@),
    ensures
        names_distinct(final(headers)@),
        header_map(final(headers)@) == header_map(old(headers)@).insert(key@, value@),
{
    let n = headers.len();
    let mut j: usize = 0;
    while j < n
        invariant
            n == headers@.len(),
            j <= n,
            headers@ == old(headers)@,
            names_distinct(old(headers)@),
            forall|k: int| 0 <= k < j ==> headers@[k].0@ != key@,
        decreases n - j,
    {
        if headers[j].0 == key {
            let ghost before = headers@;
            let ghost k = key@;
            let ghost v = value@;
            headers.set(j, (key, value));
            proof {
                lemma_header_map_update(before, j as int, headers@[j as int]);
                assert(headers@ =~= before.update(j as int, headers@[j as int]));
                assert(names_distinct(headers@)) by {
                    assert forall|a: int, b: int|
                        0 <= a < headers@.len() && 0 <= b < headers@.len() && a != b
                    implies headers@[a].0@ != headers@[b].0@ by {
                        assert(before[a].0@ != before[b].0@);
                    }
                }
                assert(header_map(headers@) == header_map(before).insert(k, v));
            }
            return;
        }
        j = j + 1;
    }
    let ghost before = headers@;
    let ghost k = key@;
    let ghost v = value@;
    headers.push((key, value));
    proof {
        assert(headers@.drop_last() =~= before);
        assert(header_map(headers@) == header_map(before).insert(k, v));
    }
}

impl HttpResponse {
    /// The value of header `name`, if the response has that header.
    pub fn header(&self, name: &str) -> (r: Option<String>)
        requires
            self.wf(),
        ensures
            match r {
                Some(v) => self@.headers.contains_key(name@) && self@.headers[name@] == v@,
                None => !self@.headers.contains_key(name@),
            },
    {
        let n = self.headers.len();
        let mut i: usize = 0;
        while i < n
            invariant
                n == self.headers@.len(),
                i <= n,
                self.wf(),
                forall|k: int| 0 <= k < i ==> self.headers@[k].0@ != name@,
            decreases n - i,
        {
            if str_eq(self.headers[i].0.as_str(), name) {
                let v = self.headers[i].1.clone();
                proof {
                    lemma_header_map_entries(self.headers@);
                    assert(header_map(self.headers@)[self.headers@[i as int].0@] == v@);
                }
                return Some(v);
            }
            i = i + 1;
        }
        proof {
            lemma_header_map_entries(self.headers@);
        }
        None
    }

    /// Parses a response text line by line: a line holding `HTTP` sets version, status and
    /// reason; a line holding `':'` sets a header; an empty line is skipped; any other line
    /// becomes the body. Later lines override earlier ones. Fails exactly when some status
    /// line has fewer than three whitespace-separated tokens.
    pub fn parse(response: &str) -> (r: Result<HttpResponse, ParseError>)
        ensures
            match r {
                Ok(resp) => resp.wf() && parse_response(response@) == Some(resp@),
                Err(e) => e == ParseError::MalformedStatusLine && parse_response(response@) is None,
            },
    {
        let ls = split_lines(response);
        let ghost all = lines(response@);
        let mut version = Version::Uninitialized;
        let mut status = Status::Uninitialized;
        let mut reason = ReasonPharse::Uninitialized;
        let mut headers: Vec<(String, String)> = Vec::new();
        let mut msg_body = String::new();
        proof {
            assert(all.take(0) =~= seq![]);
            assert(header_map(headers@) =~= Map::empty());
        }
        let mut j: usize = 0;
        while j < ls.len()
            invariant
                ls@.map_values(|l: String| l@) == all,
                all == lines(response@),
                j <= ls@.len(),
                names_distinct(headers@),
                parse_lines(all.take(j as int)) == Some(
                    ResponseView {
                        version,
                        status,
                        reason,
                        headers: header_map(headers@),
                        msg_body: msg_body@,
                    },
                ),
            decreases ls@.len() - j,
        {
            let line = ls[j].as_str();
            proof {
                assert(all[j as int] == line@);
                assert(all.take(j + 1).drop_last() =~= all.take(j as int));
                assert(all.take(j + 1).last() == line@);
            }
            if has_protocol_marker(line) {
                if split_whitespace(line).len() < 3 {
                    proof {
                        short_status_line_fails(response@, j as int);
                    }
                    return Err(ParseError::MalformedStatusLine);
                }
                let (v, s, r) = process_response_line(line);
                version = v;
                status = s;
                reason = r;
            } else if find_colon(line) < line.unicode_len() {
                proof {
                    lemma_find_from_bounds(line@, 0, |c: char| c == ':');
                    assert(line@.contains(':'));
                }
                let (key, value) = process_header_line(line);
                insert_header(&mut headers, key, value);
            } else if line.unicode_len() == 0 {
            } else {
                proof {
                    lemma_find_from_bounds(line@, 0, |c: char| c == ':');
                }
                msg_body = line.to_owned();
            }
            j = j + 1;
        }
        proof {
            assert(all.take(j as int) =~= all);
        }
        Ok(HttpResponse { version, status, reason, headers, msg_body })
    }
}

} // verus!

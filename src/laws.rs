//! Properties of the parser that relate several lines or several calls.
use vstd::prelude::*;
use crate::response::{
    apply_line, header_key, header_value, is_header_line, is_status_line, parse_lines,
    parse_response, HttpResponse, ParseError,
};
use crate::text::{lines, words};

verus! {

/// Once a prefix of the lines fails to parse, so do all the lines.
proof fn lemma_failure_persists(ls: Seq<Seq<char>>, k: int)
    requires
        0 <= k <= ls.len(),
        parse_lines(ls.take(k)) is None,
    ensures
        parse_lines(ls) is None,
    decreases ls.len() - k,
{
    if k < ls.len() {
        assert(ls.take(k + 1).drop_last() =~= ls.take(k));
        lemma_failure_persists(ls, k + 1);
    } else {
        assert(ls.take(k) =~= ls);
    }
}

proof fn lemma_header_present(ls: Seq<Seq<char>>, i: int)
    requires
        0 <= i < ls.len(),
        is_header_line(ls[i]),
        parse_lines(ls) is Some,
    ensures
        parse_lines(ls)->0.headers.contains_key(header_key(ls[i])),
    decreases ls.len(),
{
    let p = ls.drop_last();
    assert(parse_lines(p) is Some);
    if i < ls.len() - 1 {
        assert(p[i] == ls[i]);
        lemma_header_present(p, i);
    }
}

proof fn lemma_last_header_wins(ls: Seq<Seq<char>>, i: int)
    requires
        0 <= i < ls.len(),
        is_header_line(ls[i]),
        forall|k: int|
            i < k < ls.len() && is_header_line(#[trigger] ls[k]) ==> header_key(ls[k])
                != header_key(ls[i]),
        parse_lines(ls) is Some,
    ensures
        parse_lines(ls)->0.headers.contains_key(header_key(ls[i])),
        parse_lines(ls)->0.headers[header_key(ls[i])] == header_value(ls[i]),
    decreases ls.len(),
{
    let p = ls.drop_last();
    assert(parse_lines(p) is Some);
    if i < ls.len() - 1 {
        assert(p[i] == ls[i]);
        assert forall|k: int|
            i < k < p.len() && is_header_line(#[trigger] p[k]) implies header_key(p[k])
            != header_key(p[i]) by {
            assert(p[k] == ls[k]);
        }
        lemma_last_header_wins(p, i);
        assert(is_header_line(ls.last()) ==> header_key(ls.last()) != header_key(ls[i]));
    }
}

/// A status line with fewer than three whitespace-separated tokens makes the whole parse
/// fail, wherever it stands.
pub proof fn short_status_line_fails(s: Seq<char>, i: int)
    requires
        0 <= i < lines(s).len(),
        is_status_line(lines(s)[i]),
        words(lines(s)[i]).len() < 3,
    ensures
        parse_response(s) is None,
{
    let ls = lines(s);
    assert(ls.take(i + 1).drop_last() =~= ls.take(i));
    assert(ls.take(i + 1).last() == ls[i]);
    assert(apply_line(parse_lines(ls.take(i)), ls[i]) is None);
    lemma_failure_persists(ls, i + 1);
}

/// Every header line of a text that parses leaves its name among the headers.
pub proof fn every_header_line_recorded(s: Seq<char>, i: int)
    requires
        0 <= i < lines(s).len(),
        is_header_line(lines(s)[i]),
        parse_response(s) is Some,
    ensures
        parse_response(s)->0.headers.contains_key(header_key(lines(s)[i])),
{
    lemma_header_present(lines(s), i);
}

/// Of header lines with the same name, the last one gives the value.
pub proof fn last_header_line_wins(s: Seq<char>, i: int)
    requires
        0 <= i < lines(s).len(),
        is_header_line(lines(s)[i]),
        forall|k: int|
            i < k < lines(s).len() && is_header_line(#[trigger] lines(s)[k]) ==> header_key(
                lines(s)[k],
            ) != header_key(lines(s)[i]),
        parse_response(s) is Some,
    ensures
        parse_response(s)->0.headers[header_key(lines(s)[i])] == header_value(lines(s)[i]),
{
    lemma_last_header_wins(lines(s), i);
}

/// Parsing depends on the text alone: two parses of the same text have the same outcome.
pub proof fn parse_is_deterministic(
    s: Seq<char>,
    a: Result<HttpResponse, ParseError>,
    b: Result<HttpResponse, ParseError>,
)
    requires
        match a {
            Ok(resp) => resp.wf() && parse_response(s) == Some(resp@),
            Err(e) => e == ParseError::MalformedStatusLine && parse_response(s) is None,
        },
        match b {
            Ok(resp) => resp.wf() && parse_response(s) == Some(resp@),
            Err(e) => e == ParseError::MalformedStatusLine && parse_response(s) is None,
        },
    ensures
        a is Ok <==> b is Ok,
        a is Ok ==> a->Ok_0@ == b->Ok_0@,
        a is Err ==> a == b,
{
}

} // verus!

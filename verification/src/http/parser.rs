//! The recognizers on a cursor: each takes the whole input and a position in
//! it, and gives the position after what it consumed. Offsets in failures
//! count from the start of the input, in characters; in ASCII text these are
//! bytes. A character outside ASCII is a character like any other that is no
//! token character.

use vstd::prelude::*;
use vstd::std_specs::iter::IteratorSpec;
use crate::http::error::{outcome, within, ErrorKind, ParseError};
use crate::http::grammar::{
    endpoint_at, fragment_at, header_at, headers_at, lemma_prepend_none, lemma_prepend_one,
    line_end_at, method_at, pair_at, pairs_from, prepend, query_at, request_at, request_line_at,
    segments_at, segments_from, version_at,
};
use crate::http::invariants::lemma_request_well_formed;
use crate::http::request::Request;
use crate::http::{
    http_1_0, http_1_1, lemma_keywords, Endpoint, Field, FieldView, Method, MethodView, Version,
};
use crate::http::charset::{
    has_char_at, has_text_at, in_class, is_token_char, lemma_run_end_bounds, run_end, CharClass,
};

verus! {

/// Whether `ch` is a token character.
pub fn is_header_character(ch: char) -> (r: bool)
    ensures
        r == is_token_char(ch),
{
    ('A' <= ch && ch <= 'Z') || ('a' <= ch && ch <= 'z') || ('0' <= ch && ch <= '9') || ch == '-'
        || ch == '_'
}

/// Whether `ch` belongs to `class`.
pub fn is_in_class(class: CharClass, ch: char) -> (r: bool)
    ensures
        r == in_class(class, ch),
{
    match class {
        CharClass::Token => is_header_character(ch),
        CharClass::Alpha => ('A' <= ch && ch <= 'Z') || ('a' <= ch && ch <= 'z'),
        CharClass::Fragment => ch != ' ' && ch != '\r' && ch != '\n',
        CharClass::Line => ch != '\n',
    }
}

/// Number of characters of a text.
pub fn text_len(input: &str) -> (n: usize)
    ensures
        n == input@.len(),
{
    input.unicode_len()
}

/// The character at `pos`.
pub fn char_at(input: &str, pos: usize) -> (c: char)
    requires
        pos < input@.len(),
    ensures
        c == input@[pos as int],
{
    input.get_char(pos)
}

/// Whether the character `c` stands at `pos`; false at the end of the input.
pub fn holds_char(input: &str, pos: usize, c: char) -> (r: bool)
    ensures
        r == has_char_at(input@, pos as int, c),
        r ==> pos < usize::MAX,
{
    pos < text_len(input) && char_at(input, pos) == c
}

/// Maximal munch: the end of the longest run of characters of `class` from `pos`.
pub fn take_while(input: &str, pos: usize, class: CharClass) -> (end: usize)
    requires
        pos <= input@.len(),
    ensures
        end == run_end(input@, class, pos as int),
        pos <= end <= input@.len(),
{
    let len = text_len(input);
    let mut rest = input.chars();
    proof {
        vstd::string::axiom_spec_iter(input);
        assert(input@.skip(0) =~= input@);
    }
    let mut end: usize = 0;
    while end < pos
        invariant
            end <= pos <= input@.len(),
            rest.remaining() == input@.skip(end as int),
        decreases pos - end,
    {
        let ghost before = rest;
        let found = rest.next();
        proof {
            vstd::string::next_postcondition(&before, &rest, found);
            assert(input@.skip(end as int).drop_first() =~= input@.skip(end + 1));
        }
        end = end + 1;
    }
    loop
        invariant_except_break
            rest.remaining() == input@.skip(end as int),
            run_end(input@, class, pos as int) == run_end(input@, class, end as int),
        invariant
            len == input@.len(),
            pos <= end <= len,
        ensures
            end == run_end(input@, class, pos as int),
        decreases input@.len() - end,
    {
        let ghost before = rest;
        let found = rest.next();
        proof {
            vstd::string::next_postcondition(&before, &rest, found);
            if end < input@.len() {
                assert(input@.skip(end as int).drop_first() =~= input@.skip(end + 1));
                assert(input@.skip(end as int)[0] == input@[end as int]);
            }
        }
        match found {
            Some(ch) => {
                if !is_in_class(class, ch) {
                    break;
                }
            },
            None => {
                break;
            },
        }
        end = end + 1;
    }
    end
}

/// Literal match: whether `text` stands in `input` from `pos` on.
pub fn holds_text(input: &str, pos: usize, text: &str) -> (r: bool)
    ensures
        r == has_text_at(input@, pos as int, text@),
        r ==> pos + text@.len() <= usize::MAX,
{
    let len = text_len(input);
    let n = text_len(text);
    if pos > len || len - pos < n {
        return false;
    }
    let mut i: usize = 0;
    while i < n
        invariant
            len == input@.len(),
            n == text@.len(),
            pos + n <= len,
            i <= n,
            forall|k: int| 0 <= k < i ==> input@[pos + k] == text@[k],
        decreases n - i,
    {
        if char_at(input, pos + i) != char_at(text, i) {
            proof {
                let part = input@.subrange(pos as int, pos + n);
                assert(part[i as int] != text@[i as int]);
            }
            return false;
        }
        i = i + 1;
    }
    assert(input@.subrange(pos as int, pos + n) =~= text@);
    true
}

/// Whether two texts are the same.
pub fn same_text(a: &str, b: &str) -> (r: bool)
    ensures
        r == (a@ == b@),
{
    let same = text_len(a) == text_len(b) && holds_text(a, 0, b);
    proof {
        if a@.len() == b@.len() {
            assert(a@.subrange(0, b@.len() as int) =~= a@);
        }
    }
    same
}

/// The method that a token stands for.
pub fn method_of_token<'a>(token: &'a str) -> (m: Method<'a>)
    ensures
        m@ == MethodView::of_token(token@),
{
    proof {
        lemma_keywords();
    }
    if same_text(token, "GET") {
        Method::GET
    } else if same_text(token, "HEAD") {
        Method::HEAD
    } else if same_text(token, "POST") {
        Method::POST
    } else if same_text(token, "PUT") {
        Method::PUT
    } else if same_text(token, "DELETE") {
        Method::DELETE
    } else if same_text(token, "CONNECT") {
        Method::CONNECT
    } else if same_text(token, "OPTIONS") {
        Method::OPTIONS
    } else if same_text(token, "TRACE") {
        Method::TRACE
    } else if same_text(token, "PATCH") {
        Method::PATCH
    } else {
        Method::OTHER(token)
    }
}

/// Method: the longest run of token characters from `pos`, as a keyword or as
/// the extension case. Fails with `EmptyMethod` where the run is empty. The
/// space that follows is not consumed.
pub fn parse_http_method<'a>(input: &'a str, pos: usize) -> (r: Result<
    (usize, Method<'a>),
    ParseError,
>)
    requires
        pos <= input@.len(),
    ensures
        outcome(r) == method_at(input@, pos as int),
        within(r, pos as int, input@.len() as int),
{
    let end = take_while(input, pos, CharClass::Token);
    if end == pos {
        Err(ParseError::new(ErrorKind::EmptyMethod, pos))
    } else {
        Ok((end, method_of_token(input.substring_char(pos, end))))
    }
}

/// The segments after the leading `/`: none where neither a token character
/// nor a `/` stands at `pos`, else non-empty runs of token characters
/// separated by `/`. Fails with `EmptySegment` where a segment must stand and
/// no token character does.
pub fn parse_http_path_segments<'a>(input: &'a str, pos: usize) -> (r: Result<
    (usize, Vec<&'a str>),
    ParseError,
>)
    requires
        pos <= input@.len(),
    ensures
        outcome(r) == segments_at(input@, pos as int),
        within(r, pos as int, input@.len() as int),
{
    let len = text_len(input);
    let mut segments: Vec<&'a str> = Vec::new();
    if pos >= len || !(is_header_character(char_at(input, pos)) || char_at(input, pos) == '/') {
        assert(segments.deep_view() =~= Seq::empty());
        return Ok((pos, segments));
    }
    let mut cur: usize = pos;
    proof {
        assert(segments.deep_view() =~= Seq::empty());
        lemma_prepend_none(segments_from(input@, cur as int));
    }
    loop
        invariant
            len == input@.len(),
            pos <= cur <= len,
            segments_at(input@, pos as int) == prepend(
                segments.deep_view(),
                segments_from(input@, cur as int),
            ),
        decreases len - cur,
    {
        let end = take_while(input, cur, CharClass::Token);
        if end == cur {
            return Err(ParseError::new(ErrorKind::EmptySegment, cur));
        }
        let ghost before = segments.deep_view();
        let segment = input.substring_char(cur, end);
        segments.push(segment);
        proof {
            assert(segments.deep_view() =~= before.push(segment@));
            lemma_prepend_one(before, segment@, segments_from(input@, end + 1));
        }
        if holds_char(input, end, '/') {
            cur = end + 1;
        } else {
            return Ok((end, segments));
        }
    }
}

/// One query pair: key, `=`, value, each a non-empty run of token
/// characters. Fails with `MalformedQueryPair` at the place where the key,
/// the `=` or the value is missing.
pub fn parse_http_path_query_pair<'a>(input: &'a str, pos: usize) -> (r: Result<
    (usize, Field<'a>),
    ParseError,
>)
    requires
        pos <= input@.len(),
    ensures
        outcome(r) == pair_at(input@, pos as int),
        within(r, pos as int, input@.len() as int),
{
    let key_end = take_while(input, pos, CharClass::Token);
    if key_end == pos {
        return Err(ParseError::new(ErrorKind::MalformedQueryPair, pos));
    }
    if !holds_char(input, key_end, '=') {
        return Err(ParseError::new(ErrorKind::MalformedQueryPair, key_end));
    }
    let value_end = take_while(input, key_end + 1, CharClass::Token);
    if value_end == key_end + 1 {
        return Err(ParseError::new(ErrorKind::MalformedQueryPair, key_end + 1));
    }
    let name = input.substring_char(pos, key_end);
    let value = input.substring_char(key_end + 1, value_end);
    Ok((value_end, Field { name, value }))
}

/// The query: empty where no `?` stands at `pos`; else the `?` and pairs
/// separated by `&`. After the `?` the list is empty where neither a token
/// character nor `=` nor `&` follows. Fails as a pair fails.
pub fn parse_http_path_query<'a>(input: &'a str, pos: usize) -> (r: Result<
    (usize, Vec<Field<'a>>),
    ParseError,
>)
    requires
        pos <= input@.len(),
    ensures
        outcome(r) == query_at(input@, pos as int),
        within(r, pos as int, input@.len() as int),
{
    let len = text_len(input);
    let mut pairs: Vec<Field<'a>> = Vec::new();
    assert(pairs.deep_view() =~= Seq::empty());
    if !holds_char(input, pos, '?') {
        return Ok((pos, pairs));
    }
    let first = pos + 1;
    if first >= len || !(is_header_character(char_at(input, first)) || char_at(input, first) == '='
        || char_at(input, first) == '&') {
        return Ok((first, pairs));
    }
    let mut cur: usize = first;
    proof {
        lemma_prepend_none(pairs_from(input@, cur as int));
    }
    loop
        invariant
            len == input@.len(),
            pos < cur <= len,
            query_at(input@, pos as int) == prepend(
                pairs.deep_view(),
                pairs_from(input@, cur as int),
            ),
        decreases len - cur,
    {
        let (end, pair) = match parse_http_path_query_pair(input, cur) {
            Ok(found) => found,
            Err(e) => {
                return Err(e);
            },
        };
        let ghost before = pairs.deep_view();
        pairs.push(pair);
        proof {
            lemma_run_end_bounds(input@, CharClass::Token, cur as int);
            let key_end = run_end(input@, CharClass::Token, cur as int);
            lemma_run_end_bounds(input@, CharClass::Token, key_end + 1);
            assert(pairs.deep_view() =~= before.push(pair@));
            lemma_prepend_one(before, pair@, pairs_from(input@, end + 1));
        }
        if holds_char(input, end, '&') {
            cur = end + 1;
        } else {
            return Ok((end, pairs));
        }
    }
}

/// The fragment: the `#` at `pos` and everything after it up to the space or
/// line end that closes the target. It is absent, and nothing is consumed,
/// where no `#` stands at `pos` or where nothing follows the `#`.
pub fn parse_http_path_fragment<'a>(input: &'a str, pos: usize) -> (r: (usize, Option<&'a str>))
    requires
        pos <= input@.len(),
    ensures
        (r.0 as int, r.1.deep_view()) == fragment_at(input@, pos as int),
        pos <= r.0 <= input@.len(),
{
    if !holds_char(input, pos, '#') {
        return (pos, None);
    }
    let end = take_while(input, pos + 1, CharClass::Fragment);
    if end == pos + 1 {
        (pos, None)
    } else {
        (end, Some(input.substring_char(pos + 1, end)))
    }
}

/// Target: `/`, segments, query and fragment, in this order and without
/// going back. Fails with `MissingPathRoot` where no `/` stands at `pos`, and
/// as the segments or the query fail.
pub fn parse_http_path<'a>(input: &'a str, pos: usize) -> (r: Result<
    (usize, Endpoint<'a>),
    ParseError,
>)
    requires
        pos <= input@.len(),
    ensures
        outcome(r) == endpoint_at(input@, pos as int),
        within(r, pos as int, input@.len() as int),
{
    if !holds_char(input, pos, '/') {
        return Err(ParseError::new(ErrorKind::MissingPathRoot, pos));
    }
    let (after_path, segments) = match parse_http_path_segments(input, pos + 1) {
        Ok(found) => found,
        Err(e) => {
            return Err(e);
        },
    };
    let (after_query, parameters) = match parse_http_path_query(input, after_path) {
        Ok(found) => found,
        Err(e) => {
            return Err(e);
        },
    };
    let (end, fragment) = parse_http_path_fragment(input, after_query);
    Ok((end, Endpoint { segments, parameters, fragment }))
}

/// Version: the literal `HTTP/1.0`, else the literal `HTTP/1.1`, else the
/// longest run of letters as the extension case. Fails with `EmptyVersion`
/// where none of the three stands at `pos`.
pub fn parse_http_version<'a>(input: &'a str, pos: usize) -> (r: Result<
    (usize, Version<'a>),
    ParseError,
>)
    requires
        pos <= input@.len(),
    ensures
        outcome(r) == version_at(input@, pos as int),
        within(r, pos as int, input@.len() as int),
{
    proof {
        reveal_strlit("HTTP/1.0");
        reveal_strlit("HTTP/1.1");
        assert("HTTP/1.0"@ =~= http_1_0());
        assert("HTTP/1.1"@ =~= http_1_1());
    }
    if holds_text(input, pos, "HTTP/1.0") {
        return Ok((pos + 8, Version::HTTP1_0));
    }
    if holds_text(input, pos, "HTTP/1.1") {
        return Ok((pos + 8, Version::HTTP1_1));
    }
    let end = take_while(input, pos, CharClass::Alpha);
    if end == pos {
        Err(ParseError::new(ErrorKind::EmptyVersion, pos))
    } else {
        Ok((end, Version::OTHER(input.substring_char(pos, end))))
    }
}

/// Line terminator: a line feed, alone or after one carriage return. Gives
/// the position after it, or nothing where none starts at `pos`.
pub fn parse_line_end(input: &str, pos: usize) -> (r: Option<usize>)
    requires
        pos <= input@.len(),
    ensures
        match r {
            Some(next) => line_end_at(input@, pos as int) == Some(next as int),
            None => line_end_at(input@, pos as int) is None,
        },
        r matches Some(next) ==> pos < next <= input@.len(),
{
    if holds_char(input, pos, '\n') {
        Some(pos + 1)
    } else if holds_char(input, pos, '\r') && holds_char(input, pos + 1, '\n') {
        Some(pos + 2)
    } else {
        None
    }
}

/// Request line: method, one space, target, one space, version, line
/// terminator. The first part that fails ends the parse with its failure;
/// a missing space gives `MissingSpace`, a missing terminator `MissingLineEnd`.
pub fn parse_http_request_line<'a>(input: &'a str, pos: usize) -> (r: Result<
    (usize, (Method<'a>, Endpoint<'a>, Version<'a>)),
    ParseError,
>)
    requires
        pos <= input@.len(),
    ensures
        outcome(r) == request_line_at(input@, pos as int),
        within(r, pos as int, input@.len() as int),
{
    let (after_method, method) = match parse_http_method(input, pos) {
        Ok(found) => found,
        Err(e) => {
            return Err(e);
        },
    };
    if !holds_char(input, after_method, ' ') {
        return Err(ParseError::new(ErrorKind::MissingSpace, after_method));
    }
    let (after_target, endpoint) = match parse_http_path(input, after_method + 1) {
        Ok(found) => found,
        Err(e) => {
            return Err(e);
        },
    };
    if !holds_char(input, after_target, ' ') {
        return Err(ParseError::new(ErrorKind::MissingSpace, after_target));
    }
    let (after_version, version) = match parse_http_version(input, after_target + 1) {
        Ok(found) => found,
        Err(e) => {
            return Err(e);
        },
    };
    match parse_line_end(input, after_version) {
        Some(after_line) => Ok((after_line, (method, endpoint, version))),
        None => Err(ParseError::new(ErrorKind::MissingLineEnd, after_version)),
    }
}

/// Header line: name, `:`, an optional space, and the value, which is every
/// character up to the line terminator and is kept as it stands. The
/// terminator is not consumed. Fails with `MalformedHeaderLine` where the
/// name, the `:` or the terminator is missing.
pub fn parse_http_header<'a>(input: &'a str, pos: usize) -> (r: Result<
    (usize, Field<'a>),
    ParseError,
>)
    requires
        pos <= input@.len(),
    ensures
        outcome(r) == header_at(input@, pos as int),
        within(r, pos as int, input@.len() as int),
        r matches Ok((end, _)) ==> pos < end && line_end_at(input@, end as int) is Some,
{
    let len = text_len(input);
    let colon = take_while(input, pos, CharClass::Token);
    if colon == pos {
        return Err(ParseError::new(ErrorKind::MalformedHeaderLine, pos));
    }
    if !holds_char(input, colon, ':') {
        return Err(ParseError::new(ErrorKind::MalformedHeaderLine, colon));
    }
    let start = if holds_char(input, colon + 1, ' ') {
        colon + 2
    } else {
        colon + 1
    };
    let line_feed = take_while(input, start, CharClass::Line);
    if line_feed >= len {
        return Err(ParseError::new(ErrorKind::MalformedHeaderLine, line_feed));
    }
    let end = if start < line_feed && holds_char(input, line_feed - 1, '\r') {
        line_feed - 1
    } else {
        line_feed
    };
    proof {
        lemma_run_end_bounds(input@, CharClass::Line, start as int);
    }
    let name = input.substring_char(pos, colon);
    let value = input.substring_char(start, end);
    Ok((end, Field { name, value }))
}

/// Header list: header lines, each followed by its line terminator, for as
/// long as a token character stands at the start of the line; where none
/// does the list ends without failure, so an empty list is a valid one.
/// Order and duplicates are kept. Fails as a header line fails.
pub fn parse_http_headers<'a>(input: &'a str, pos: usize) -> (r: Result<
    (usize, Vec<Field<'a>>),
    ParseError,
>)
    requires
        pos <= input@.len(),
    ensures
        outcome(r) == headers_at(input@, pos as int),
        within(r, pos as int, input@.len() as int),
{
    let len = text_len(input);
    let mut headers: Vec<Field<'a>> = Vec::new();
    let mut cur: usize = pos;
    proof {
        assert(headers.deep_view() =~= Seq::empty());
        lemma_prepend_none(headers_at(input@, cur as int));
    }
    while cur < len && is_header_character(char_at(input, cur))
        invariant
            len == input@.len(),
            pos <= cur <= len,
            headers_at(input@, pos as int) == prepend(
                headers.deep_view(),
                headers_at(input@, cur as int),
            ),
        decreases len - cur,
    {
        let (end, header) = match parse_http_header(input, cur) {
            Ok(found) => found,
            Err(e) => {
                return Err(e);
            },
        };
        let next = match parse_line_end(input, end) {
            Some(next) => next,
            None => end,
        };
        let ghost before = headers.deep_view();
        headers.push(header);
        proof {
            assert(headers.deep_view() =~= before.push(header@));
            lemma_prepend_one(before, header@, headers_at(input@, next as int));
        }
        cur = next;
    }
    proof {
        assert(headers.deep_view() + Seq::<FieldView>::empty() =~= headers.deep_view());
    }
    Ok((cur, headers))
}

/// Request: request line, header list, and the blank line after it where
/// there is one; all that follows is the body, kept as it stands. The
/// position that is returned is where the body starts. The first failure of
/// a part is the failure of the whole, and nothing of the request is returned
/// with it.
pub fn parse_http_request<'a>(input: &'a str, pos: usize) -> (r: Result<
    (usize, Request<'a>),
    ParseError,
>)
    requires
        pos <= input@.len(),
    ensures
        outcome(r) == request_at(input@, pos as int),
        within(r, pos as int, input@.len() as int),
        r matches Ok((_, request)) ==> request@.well_formed(),
{
    proof {
        lemma_request_well_formed(input@, pos as int);
    }
    let (after_line, (method, endpoint, version)) = match parse_http_request_line(input, pos) {
        Ok(found) => found,
        Err(e) => {
            return Err(e);
        },
    };
    let (after_headers, headers) = match parse_http_headers(input, after_line) {
        Ok(found) => found,
        Err(e) => {
            return Err(e);
        },
    };
    let start = match parse_line_end(input, after_headers) {
        Some(next) => next,
        None => after_headers,
    };
    let body = input.substring_char(start, text_len(input));
    Ok((start, Request { method, endpoint, version, headers, body }))
}

} // verus!

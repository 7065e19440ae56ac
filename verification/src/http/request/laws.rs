//! What holds of every request and of every text.

use vstd::prelude::*;
use crate::http::charset::{
    has_char_at, in_class, is_token, is_token_char, lemma_run_end_bounds, lemma_text_char,
    lemma_text_split, run_end, CharClass,
};
use crate::http::error::{fail, found, ErrorKind, Failure};
use crate::http::grammar::{
    endpoint_at, headers_at, method_at, past_line_end, request_at, segments_from,
};
use crate::http::{EndpointView, FieldView, MethodView};
use crate::http::request::roundtrip::{
    lemma_headers_recovered, lemma_method_recovered, lemma_request_line_recovered,
};
use crate::http::request::wire::{
    body_offset, crlf, header_lines, request_line_text, wire_text,
};
use crate::http::request::{parse_text, RequestView};

verus! {

/// A request line, header lines, a blank line and a body that stand one
/// after the other in a text are recognized as the request they make up.
proof fn lemma_parts_recovered(s: Seq<char>, r: RequestView, line: Seq<char>, lines: Seq<char>)
    requires
        r.well_formed(),
        line == request_line_text(r.method, r.endpoint, r.version),
        lines == header_lines(r.headers),
        s == line + lines + crlf() + r.body,
    ensures
        request_at(s, 0) == found(body_offset(r), r),
{
    let a1 = line + lines;
    let a2 = a1 + crlf();
    assert(s.subrange(0, s.len() as int) =~= s);
    lemma_text_split(s, 0, a2, r.body);
    lemma_text_split(s, 0, a1, crlf());
    lemma_text_split(s, 0, line, lines);
    lemma_text_char(s, a1.len() as int, crlf(), 0);
    lemma_text_char(s, a1.len() as int, crlf(), 1);
    lemma_request_line_recovered(s, 0, r.method, r.endpoint, r.version);
    lemma_headers_recovered(s, line.len() as int, r.headers);
    assert(past_line_end(s, a1.len() as int) == a1.len() + 2);
    assert(s.subrange(a2.len() as int, s.len() as int) == r.body);
}

/// Writing a well-formed request to the wire and recognizing the text gives
/// the request back: the same method, segments, query pairs, fragment,
/// version, headers and body, with the cursor where the body starts.
pub proof fn lemma_wire_round_trip(r: RequestView)
    requires
        r.well_formed(),
    ensures
        request_at(wire_text(r), 0) == found(body_offset(r), r),
{
    let line = request_line_text(r.method, r.endpoint, r.version);
    let lines = header_lines(r.headers);
    lemma_parts_recovered(wire_text(r), r, line, lines);
}

/// Formatting a request to wire text and parsing the text gives the request
/// back, for every well-formed request: method, segments, query pairs,
/// fragment, version and headers are the same, and so is the body, whatever
/// it holds.
pub proof fn lemma_parse_of_wire(r: RequestView)
    requires
        r.well_formed(),
    ensures
        parse_text(wire_text(r)) == Ok::<RequestView, Failure>(r),
{
    lemma_wire_round_trip(r);
}

/// A target that does not begin with `/` fails with `MissingPathRoot` at its
/// first position, whatever else it holds.
pub proof fn lemma_target_without_root(s: Seq<char>, pos: int)
    requires
        !has_char_at(s, pos, '/'),
    ensures
        endpoint_at(s, pos) == fail::<EndpointView>(ErrorKind::MissingPathRoot, pos),
{
}

/// A request whose method and space are followed by a target that does not
/// begin with `/` fails with `MissingPathRoot`, at the offset where the
/// target starts.
pub proof fn lemma_request_without_root(s: Seq<char>)
    requires
        run_end(s, CharClass::Token, 0) > 0,
        has_char_at(s, run_end(s, CharClass::Token, 0), ' '),
        !has_char_at(s, run_end(s, CharClass::Token, 0) + 1, '/'),
    ensures
        parse_text(s) == Err::<RequestView, Failure>(
            Failure { kind: ErrorKind::MissingPathRoot, offset: run_end(s, CharClass::Token, 0) + 1 },
        ),
{
}

/// A character of a path: a token character or a `/`.
pub open spec fn is_path_char(c: char) -> bool {
    is_token_char(c) || c == '/'
}

/// `f` is the failure for an empty segment at the second of two `/` that
/// stand between `low` and `high`.
pub open spec fn is_empty_segment_at(s: Seq<char>, f: Failure, low: int, high: int) -> bool {
    &&& f.kind == ErrorKind::EmptySegment
    &&& low < f.offset <= high
    &&& has_char_at(s, f.offset - 1, '/')
    &&& has_char_at(s, f.offset, '/')
}

/// Segments that are read after a `/`, in a text with nothing but path
/// characters up to two `/` in a row, fail at an empty segment.
proof fn lemma_segments_with_double_slash(s: Seq<char>, pos: int, first: int)
    requires
        0 < pos <= first + 1,
        has_char_at(s, pos - 1, '/'),
        forall|k: int| pos <= k <= first ==> is_path_char(#[trigger] s[k]),
        has_char_at(s, first, '/'),
        has_char_at(s, first + 1, '/'),
    ensures
        segments_from(s, pos) is Err,
        is_empty_segment_at(s, segments_from(s, pos)->Err_0, pos - 1, first + 1),
    decreases first + 1 - pos,
{
    if s[pos] != '/' {
        assert(pos <= first);
        assert(is_path_char(s[pos]));
        let end = run_end(s, CharClass::Token, pos);
        lemma_run_end_bounds(s, CharClass::Token, pos);
        assert(end > pos);
        assert(end <= first) by {
            if end > first {
                assert(in_class(CharClass::Token, s[first]));
            }
        }
        assert(is_path_char(s[end]));
        lemma_segments_with_double_slash(s, end + 1, first);
    }
}

/// A target with two `/` in a row in its path fails with `EmptySegment` at
/// the second `/` of such a pair. The path is what stands from the leading
/// `/` on for as long as there are token characters and `/`.
pub proof fn lemma_target_with_double_slash(s: Seq<char>, pos: int, first: int)
    requires
        0 <= pos <= first,
        has_char_at(s, pos, '/'),
        forall|k: int| pos <= k <= first ==> is_path_char(#[trigger] s[k]),
        has_char_at(s, first, '/'),
        has_char_at(s, first + 1, '/'),
    ensures
        endpoint_at(s, pos) is Err,
        is_empty_segment_at(s, endpoint_at(s, pos)->Err_0, pos, first + 1),
{
    if pos < first {
        assert(is_path_char(s[pos + 1]));
    }
    lemma_segments_with_double_slash(s, pos + 1, first);
}

/// A request whose method and space are followed by a target with two `/`
/// in a row in its path fails with `EmptySegment`, at the second `/` of such
/// a pair.
pub proof fn lemma_request_with_double_slash(s: Seq<char>, first: int)
    requires
        run_end(s, CharClass::Token, 0) > 0,
        has_char_at(s, run_end(s, CharClass::Token, 0), ' '),
        has_char_at(s, run_end(s, CharClass::Token, 0) + 1, '/'),
        run_end(s, CharClass::Token, 0) + 1 <= first,
        forall|k: int|
            run_end(s, CharClass::Token, 0) + 1 <= k <= first ==> is_path_char(#[trigger] s[k]),
        has_char_at(s, first, '/'),
        has_char_at(s, first + 1, '/'),
    ensures
        parse_text(s) is Err,
        is_empty_segment_at(
            s,
            parse_text(s)->Err_0,
            run_end(s, CharClass::Token, 0) + 1,
            first + 1,
        ),
{
    lemma_target_with_double_slash(s, run_end(s, CharClass::Token, 0) + 1, first);
}

/// Header lines are recognized in the order in which they stand, and a name
/// that stands twice gives two headers: the list that is read is the list
/// that was written, header by header.
pub proof fn lemma_headers_kept(headers: Seq<FieldView>, rest: Seq<char>)
    requires
        forall|i: int| 0 <= i < headers.len() ==> (#[trigger] headers[i]).is_header(),
        rest.len() > 0 ==> !is_token_char(rest[0]),
    ensures
        headers_at(header_lines(headers) + rest, 0) == found(
            header_lines(headers).len() as int,
            headers,
        ),
{
    let lines = header_lines(headers);
    let s = lines + rest;
    assert(s.subrange(0, lines.len() as int) =~= lines);
    lemma_headers_recovered(s, 0, headers);
}

/// A token that spells none of the keywords is a method: it is recognized as
/// the extension case that holds the token, not refused.
pub proof fn lemma_unknown_method_is_extension(token: Seq<char>, rest: Seq<char>)
    requires
        is_token(token),
        MethodView::of_token(token) == MethodView::OTHER(token),
        rest.len() > 0 ==> !is_token_char(rest[0]),
    ensures
        method_at(token + rest, 0) == found(token.len() as int, MethodView::OTHER(token)),
{
    let s = token + rest;
    assert(s.subrange(0, token.len() as int) =~= token);
    lemma_method_recovered(s, 0, MethodView::OTHER(token));
}

} // verus!

//! The grammar of a request, stated over a sequence of characters and a
//! position in it. Every production is a function of the text alone: it gives
//! the position after what it consumed and the value it built, or the first
//! failure with the offset at which something else was expected.

use vstd::prelude::*;
use crate::http::charset::{has_char_at, has_text_at, is_token_char, run_end, CharClass};
use crate::http::error::{fail, ErrorKind, Parsed};
use crate::http::request::RequestView;
use crate::http::{http_1_0, http_1_1, EndpointView, FieldView, MethodView, VersionView};

verus! {

/// The items `head`, followed by what `tail` yields.
pub open spec fn prepend<T>(head: Seq<T>, tail: Parsed<Seq<T>>) -> Parsed<Seq<T>> {
    match tail {
        Ok((next, items)) => Ok((next, head + items)),
        Err(f) => Err(f),
    }
}

/// Items read one after the other add up: what was read so far, then one
/// item, then the rest, is what was read so far with the item, then the rest.
pub proof fn lemma_prepend_one<T>(head: Seq<T>, item: T, tail: Parsed<Seq<T>>)
    ensures
        prepend(head, prepend(seq![item], tail)) == prepend(head.push(item), tail),
        head + seq![item] == head.push(item),
{
    assert(head + seq![item] =~= head.push(item));
    match tail {
        Ok((next, items)) => {
            assert(head + (seq![item] + items) =~= head.push(item) + items);
        },
        Err(f) => {},
    }
}

/// With nothing read so far, what is read is the rest.
pub proof fn lemma_prepend_none<T>(tail: Parsed<Seq<T>>)
    ensures
        prepend(Seq::empty(), tail) == tail,
{
    match tail {
        Ok((next, items)) => {
            assert(Seq::<T>::empty() + items =~= items);
        },
        Err(f) => {},
    }
}

/// Method: the longest run of token characters, which must not be empty. The
/// run as a whole decides between a keyword and the extension case.
pub open spec fn method_at(s: Seq<char>, pos: int) -> Parsed<MethodView> {
    let end = run_end(s, CharClass::Token, pos);
    if end == pos {
        fail(ErrorKind::EmptyMethod, pos)
    } else {
        Ok((end, MethodView::of_token(s.subrange(pos, end))))
    }
}

/// One or more segments separated by `/`, each a non-empty run of token
/// characters. After a `/` a segment must follow.
pub open spec fn segments_from(s: Seq<char>, pos: int) -> Parsed<Seq<Seq<char>>>
    decreases s.len() - pos,
{
    let end = run_end(s, CharClass::Token, pos);
    if end == pos {
        fail(ErrorKind::EmptySegment, pos)
    } else if has_char_at(s, end, '/') {
        prepend(seq![s.subrange(pos, end)], segments_from(s, end + 1))
    } else {
        Ok((end, seq![s.subrange(pos, end)]))
    }
}

/// The segments after the leading `/`: none where neither a token character
/// nor a `/` follows, else a list of one or more.
pub open spec fn segments_at(s: Seq<char>, pos: int) -> Parsed<Seq<Seq<char>>> {
    if 0 <= pos < s.len() && (is_token_char(s[pos]) || s[pos] == '/') {
        segments_from(s, pos)
    } else {
        Ok((pos, Seq::empty()))
    }
}

/// One query pair: key, `=`, value; key and value are non-empty runs of token
/// characters.
pub open spec fn pair_at(s: Seq<char>, pos: int) -> Parsed<FieldView> {
    let key_end = run_end(s, CharClass::Token, pos);
    let value_end = run_end(s, CharClass::Token, key_end + 1);
    if key_end == pos {
        fail(ErrorKind::MalformedQueryPair, pos)
    } else if !has_char_at(s, key_end, '=') {
        fail(ErrorKind::MalformedQueryPair, key_end)
    } else if value_end == key_end + 1 {
        fail(ErrorKind::MalformedQueryPair, key_end + 1)
    } else {
        Ok(
            (
                value_end,
                FieldView {
                    name: s.subrange(pos, key_end),
                    value: s.subrange(key_end + 1, value_end),
                },
            ),
        )
    }
}

/// One or more query pairs separated by `&`. After a `&` a pair must follow.
pub open spec fn pairs_from(s: Seq<char>, pos: int) -> Parsed<Seq<FieldView>>
    decreases s.len() - pos,
{
    match pair_at(s, pos) {
        Err(f) => Err(f),
        Ok((end, pair)) => if has_char_at(s, end, '&') {
            prepend(seq![pair], pairs_from(s, end + 1))
        } else {
            Ok((end, seq![pair]))
        },
    }
}

/// The query: absent where no `?` stands at `pos`. After the `?` the list of
/// pairs is empty where neither a token character nor `=` nor `&` follows;
/// a marker without pairs is not told apart from no marker.
pub open spec fn query_at(s: Seq<char>, pos: int) -> Parsed<Seq<FieldView>> {
    if !has_char_at(s, pos, '?') {
        Ok((pos, Seq::empty()))
    } else if pos + 1 < s.len() && (is_token_char(s[pos + 1]) || s[pos + 1] == '=' || s[pos + 1]
        == '&') {
        pairs_from(s, pos + 1)
    } else {
        Ok((pos + 1, Seq::empty()))
    }
}

/// The fragment: the `#` at `pos` and everything after it up to the space or
/// line end that closes the target. It is absent, and nothing is consumed,
/// where no `#` stands at `pos` or where nothing follows the `#`: a fragment
/// is never empty.
pub open spec fn fragment_at(s: Seq<char>, pos: int) -> (int, Option<Seq<char>>) {
    let end = run_end(s, CharClass::Fragment, pos + 1);
    if has_char_at(s, pos, '#') && end > pos + 1 {
        (end, Some(s.subrange(pos + 1, end)))
    } else {
        (pos, None)
    }
}

/// Target: `/`, segments, query, fragment, in this order.
pub open spec fn endpoint_at(s: Seq<char>, pos: int) -> Parsed<EndpointView> {
    if !has_char_at(s, pos, '/') {
        fail(ErrorKind::MissingPathRoot, pos)
    } else {
        match segments_at(s, pos + 1) {
            Err(f) => Err(f),
            Ok((after_path, segments)) => match query_at(s, after_path) {
                Err(f) => Err(f),
                Ok((after_query, parameters)) => {
                    let (end, fragment) = fragment_at(s, after_query);
                    Ok((end, EndpointView { segments, parameters, fragment }))
                },
            },
        }
    }
}

/// Version: the literal `HTTP/1.0`, else the literal `HTTP/1.1`, else a
/// non-empty run of letters.
pub open spec fn version_at(s: Seq<char>, pos: int) -> Parsed<VersionView> {
    let end = run_end(s, CharClass::Alpha, pos);
    if has_text_at(s, pos, http_1_0()) {
        Ok((pos + 8, VersionView::HTTP1_0))
    } else if has_text_at(s, pos, http_1_1()) {
        Ok((pos + 8, VersionView::HTTP1_1))
    } else if end == pos {
        fail(ErrorKind::EmptyVersion, pos)
    } else {
        Ok((end, VersionView::OTHER(s.subrange(pos, end))))
    }
}

/// The position after the line terminator that starts at `pos`: a line feed,
/// alone or after one carriage return.
pub open spec fn line_end_at(s: Seq<char>, pos: int) -> Option<int> {
    if has_char_at(s, pos, '\n') {
        Some(pos + 1)
    } else if has_char_at(s, pos, '\r') && has_char_at(s, pos + 1, '\n') {
        Some(pos + 2)
    } else {
        None
    }
}

/// Request line: method, one space, target, one space, version, line terminator.
pub open spec fn request_line_at(s: Seq<char>, pos: int) -> Parsed<
    (MethodView, EndpointView, VersionView),
> {
    match method_at(s, pos) {
        Err(f) => Err(f),
        Ok((after_method, method)) => if !has_char_at(s, after_method, ' ') {
            fail(ErrorKind::MissingSpace, after_method)
        } else {
            match endpoint_at(s, after_method + 1) {
                Err(f) => Err(f),
                Ok((after_target, endpoint)) => if !has_char_at(s, after_target, ' ') {
                    fail(ErrorKind::MissingSpace, after_target)
                } else {
                    match version_at(s, after_target + 1) {
                        Err(f) => Err(f),
                        Ok((after_version, version)) => match line_end_at(s, after_version) {
                            None => fail(ErrorKind::MissingLineEnd, after_version),
                            Some(after_line) => Ok((after_line, (method, endpoint, version))),
                        },
                    }
                },
            }
        },
    }
}

/// Where the value of a header starts: after the `:` at `colon` and one
/// space, where one follows.
pub open spec fn value_start(s: Seq<char>, colon: int) -> int {
    if has_char_at(s, colon + 1, ' ') {
        colon + 2
    } else {
        colon + 1
    }
}

/// Where a value ends whose line feed stands at `line_feed`: before the
/// carriage return that belongs to the terminator, where there is one.
pub open spec fn value_end(s: Seq<char>, start: int, line_feed: int) -> int {
    if start < line_feed && has_char_at(s, line_feed - 1, '\r') {
        line_feed - 1
    } else {
        line_feed
    }
}

/// Header line: name, `:`, an optional space, and the value, which is every
/// character up to the line terminator and is kept as it stands. The
/// terminator must be there, and is not consumed.
pub open spec fn header_at(s: Seq<char>, pos: int) -> Parsed<FieldView> {
    let colon = run_end(s, CharClass::Token, pos);
    let start = value_start(s, colon);
    let line_feed = run_end(s, CharClass::Line, start);
    let end = value_end(s, start, line_feed);
    if colon == pos {
        fail(ErrorKind::MalformedHeaderLine, pos)
    } else if !has_char_at(s, colon, ':') {
        fail(ErrorKind::MalformedHeaderLine, colon)
    } else if line_feed >= s.len() {
        fail(ErrorKind::MalformedHeaderLine, line_feed)
    } else {
        Ok((end, FieldView { name: s.subrange(pos, colon), value: s.subrange(start, end) }))
    }
}

/// The position after the line terminator at `pos`, or `pos` where none
/// starts there.
pub open spec fn past_line_end(s: Seq<char>, pos: int) -> int {
    match line_end_at(s, pos) {
        Some(next) => next,
        None => pos,
    }
}

/// Header list: header lines, each followed by its line terminator, for as
/// long as a token character stands at the start of the line. The list ends,
/// without failure, where none does.
pub open spec fn headers_at(s: Seq<char>, pos: int) -> Parsed<Seq<FieldView>>
    decreases s.len() - pos,
{
    if 0 <= pos < s.len() && is_token_char(s[pos]) {
        match header_at(s, pos) {
            Err(f) => Err(f),
            Ok((end, header)) => prepend(seq![header], headers_at(s, past_line_end(s, end))),
        }
    } else {
        Ok((pos, Seq::empty()))
    }
}

/// Request: request line, header list, the blank line where there is one; all
/// that follows is the body.
pub open spec fn request_at(s: Seq<char>, pos: int) -> Parsed<RequestView> {
    match request_line_at(s, pos) {
        Err(f) => Err(f),
        Ok((after_line, (method, endpoint, version))) => match headers_at(s, after_line) {
            Err(f) => Err(f),
            Ok((after_headers, headers)) => {
                let start = past_line_end(s, after_headers);
                Ok(
                    (
                        start,
                        RequestView {
                            method,
                            endpoint,
                            version,
                            headers,
                            body: s.subrange(start, s.len() as int),
                        },
                    ),
                )
            },
        }
    }
}

} // verus!

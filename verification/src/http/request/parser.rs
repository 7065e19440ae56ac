//! The entry points: each recognizes one production at the start of a text
//! and gives back the text that it left unconsumed. Offsets in failures count
//! from the start of the text given.

use vstd::prelude::*;
use crate::http::error::{from_start, rest_outcome, ParseError};
use crate::http::grammar::{
    endpoint_at, header_at, headers_at, method_at, pair_at, query_at, request_at,
    request_line_at, version_at,
};
use crate::http::parser;
use crate::http::request::Request;
use crate::http::{Endpoint, Header, Method, RequestParameter, Version};

verus! {

/// The text of `input` from `pos` on.
pub fn rest_from<'a>(input: &'a str, pos: usize) -> (rest: &'a str)
    requires
        pos <= input@.len(),
    ensures
        rest@ == input@.subrange(pos as int, input@.len() as int),
{
    input.substring_char(pos, parser::text_len(input))
}

/// Request: request line, header list and blank line. The text left
/// unconsumed is the body, which the request holds too.
pub fn parse_http_request<'a>(input: &'a str) -> (r: Result<(&'a str, Request<'a>), ParseError>)
    ensures
        rest_outcome(r) == from_start(input@, request_at(input@, 0)),
        r matches Ok((rest, request)) ==> request@.well_formed() && rest@ == request@.body,
{
    match parser::parse_http_request(input, 0) {
        Ok((next, request)) => Ok((rest_from(input, next), request)),
        Err(e) => Err(e),
    }
}

/// Request line: method, space, target, space, version, line terminator.
pub fn parse_http_request_line<'a>(input: &'a str) -> (r: Result<
    (&'a str, (Method<'a>, Endpoint<'a>, Version<'a>)),
    ParseError,
>)
    ensures
        rest_outcome(r) == from_start(input@, request_line_at(input@, 0)),
{
    match parser::parse_http_request_line(input, 0) {
        Ok((next, line)) => Ok((rest_from(input, next), line)),
        Err(e) => Err(e),
    }
}

/// Method: the longest run of token characters, as a keyword or as the
/// extension case. The space after it is left unconsumed.
pub fn parse_http_method<'a>(input: &'a str) -> (r: Result<(&'a str, Method<'a>), ParseError>)
    ensures
        rest_outcome(r) == from_start(input@, method_at(input@, 0)),
{
    match parser::parse_http_method(input, 0) {
        Ok((next, method)) => Ok((rest_from(input, next), method)),
        Err(e) => Err(e),
    }
}

/// Target: `/`, segments, query, fragment.
pub fn parse_http_endpoint<'a>(input: &'a str) -> (r: Result<(&'a str, Endpoint<'a>), ParseError>)
    ensures
        rest_outcome(r) == from_start(input@, endpoint_at(input@, 0)),
{
    match parser::parse_http_path(input, 0) {
        Ok((next, endpoint)) => Ok((rest_from(input, next), endpoint)),
        Err(e) => Err(e),
    }
}

/// Query: the `?` and its pairs; empty, with nothing consumed, where the
/// text does not start with `?`.
pub fn parse_http_request_parameters<'a>(input: &'a str) -> (r: Result<
    (&'a str, Vec<RequestParameter<'a>>),
    ParseError,
>)
    ensures
        rest_outcome(r) == from_start(input@, query_at(input@, 0)),
{
    match parser::parse_http_path_query(input, 0) {
        Ok((next, parameters)) => Ok((rest_from(input, next), parameters)),
        Err(e) => Err(e),
    }
}

/// One query pair: key, `=`, value.
pub fn parse_http_request_parameter<'a>(input: &'a str) -> (r: Result<
    (&'a str, RequestParameter<'a>),
    ParseError,
>)
    ensures
        rest_outcome(r) == from_start(input@, pair_at(input@, 0)),
{
    match parser::parse_http_path_query_pair(input, 0) {
        Ok((next, parameter)) => Ok((rest_from(input, next), parameter)),
        Err(e) => Err(e),
    }
}

/// Version: one of the two literals, or a run of letters.
pub fn parse_http_version<'a>(input: &'a str) -> (r: Result<(&'a str, Version<'a>), ParseError>)
    ensures
        rest_outcome(r) == from_start(input@, version_at(input@, 0)),
{
    match parser::parse_http_version(input, 0) {
        Ok((next, version)) => Ok((rest_from(input, next), version)),
        Err(e) => Err(e),
    }
}

/// Header list: the header lines at the start of the text, in their order.
/// The blank line after them is left unconsumed.
pub fn parse_http_headers<'a>(input: &'a str) -> (r: Result<(&'a str, Vec<Header<'a>>), ParseError>)
    ensures
        rest_outcome(r) == from_start(input@, headers_at(input@, 0)),
{
    match parser::parse_http_headers(input, 0) {
        Ok((next, headers)) => Ok((rest_from(input, next), headers)),
        Err(e) => Err(e),
    }
}

/// Header line: name, `:` and value. The line terminator after the value is
/// left unconsumed.
pub fn parse_http_header<'a>(input: &'a str) -> (r: Result<(&'a str, Header<'a>), ParseError>)
    ensures
        rest_outcome(r) == from_start(input@, header_at(input@, 0)),
{
    match parser::parse_http_header(input, 0) {
        Ok((next, header)) => Ok((rest_from(input, next), header)),
        Err(e) => Err(e),
    }
}

} // verus!

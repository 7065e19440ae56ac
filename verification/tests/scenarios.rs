use http_request::http::error::{ErrorKind, ParseError};
use http_request::http::request::parser::parse_http_request;
use http_request::http::request::Request;
use http_request::http::{Field, Method, Version};

#[test]
fn full_request_with_line_feeds() {
    let input = "GET /path/to/file?hello=world&foo=bar#fragment HTTP/1.1\nHost: x\n\n";
    let request = Request::try_from(input).unwrap();
    assert_eq!(request.method, Method::GET);
    assert_eq!(request.endpoint.segments, vec!["path", "to", "file"]);
    assert_eq!(
        request.endpoint.parameters,
        vec![Field { name: "hello", value: "world" }, Field { name: "foo", value: "bar" }]
    );
    assert_eq!(request.endpoint.fragment, Some("fragment"));
    assert_eq!(request.version, Version::HTTP1_1);
    assert_eq!(request.headers, vec![Field { name: "Host", value: "x" }]);
    assert_eq!(request.body, "");
}

#[test]
fn bare_root_with_carriage_returns() {
    let request = Request::try_from("GET / HTTP/1.1\r\n\r\n").unwrap();
    assert_eq!(request.method, Method::GET);
    assert!(request.endpoint.segments.is_empty());
    assert!(request.endpoint.parameters.is_empty());
    assert_eq!(request.endpoint.fragment, None);
    assert_eq!(request.version, Version::HTTP1_1);
    assert!(request.headers.is_empty());
    assert_eq!(request.body, "");
}

#[test]
fn target_without_leading_slash() {
    let failure = Request::try_from("GET path HTTP/1.1\r\n\r\n").unwrap_err();
    assert_eq!(failure, ParseError { kind: ErrorKind::MissingPathRoot, offset: 4 });
}

#[test]
fn header_line_without_colon() {
    let failure = Request::try_from("GET / HTTP/1.1\r\nBadHeader\r\n\r\n").unwrap_err();
    assert_eq!(failure, ParseError { kind: ErrorKind::MalformedHeaderLine, offset: 25 });
}

#[test]
fn unknown_method_is_kept() {
    let request = Request::try_from("FOO / HTTP/1.1\r\n\r\n").unwrap();
    assert_eq!(request.method, Method::OTHER("FOO"));
}

#[test]
fn keyword_as_prefix_is_no_keyword() {
    let request = Request::try_from("GETX / HTTP/1.1\r\n\r\n").unwrap();
    assert_eq!(request.method, Method::OTHER("GETX"));
    let request = Request::try_from("get / HTTP/1.1\r\n\r\n").unwrap();
    assert_eq!(request.method, Method::OTHER("get"));
}

#[test]
fn every_keyword_is_known() {
    let cases = [
        ("GET", Method::GET),
        ("HEAD", Method::HEAD),
        ("POST", Method::POST),
        ("PUT", Method::PUT),
        ("DELETE", Method::DELETE),
        ("CONNECT", Method::CONNECT),
        ("OPTIONS", Method::OPTIONS),
        ("TRACE", Method::TRACE),
        ("PATCH", Method::PATCH),
    ];
    for (word, method) in cases {
        let text = format!("{} / HTTP/1.0\r\n\r\n", word);
        let request = Request::try_from(text.as_str()).unwrap();
        assert_eq!(request.method, method);
        assert_eq!(request.version, Version::HTTP1_0);
    }
}

#[test]
fn empty_method_fails() {
    let failure = Request::try_from(" / HTTP/1.1\r\n\r\n").unwrap_err();
    assert_eq!(failure, ParseError { kind: ErrorKind::EmptyMethod, offset: 0 });
    let failure = Request::try_from("").unwrap_err();
    assert_eq!(failure, ParseError { kind: ErrorKind::EmptyMethod, offset: 0 });
}

#[test]
fn missing_space_fails() {
    let failure = Request::try_from("GET").unwrap_err();
    assert_eq!(failure, ParseError { kind: ErrorKind::MissingSpace, offset: 3 });
    let failure = Request::try_from("GET\t/ HTTP/1.1\r\n").unwrap_err();
    assert_eq!(failure, ParseError { kind: ErrorKind::MissingSpace, offset: 3 });
    let failure = Request::try_from("GET /a.b HTTP/1.1\r\n").unwrap_err();
    assert_eq!(failure, ParseError { kind: ErrorKind::MissingSpace, offset: 6 });
    let failure = Request::try_from("GET /a").unwrap_err();
    assert_eq!(failure, ParseError { kind: ErrorKind::MissingSpace, offset: 6 });
}

#[test]
fn empty_target_fails_at_its_start() {
    let failure = Request::try_from("GET ").unwrap_err();
    assert_eq!(failure, ParseError { kind: ErrorKind::MissingPathRoot, offset: 4 });
    let failure = Request::try_from("GET  / HTTP/1.1\r\n").unwrap_err();
    assert_eq!(failure, ParseError { kind: ErrorKind::MissingPathRoot, offset: 4 });
}

#[test]
fn two_slashes_in_a_row_fail() {
    let failure = Request::try_from("GET //a HTTP/1.1\r\n\r\n").unwrap_err();
    assert_eq!(failure, ParseError { kind: ErrorKind::EmptySegment, offset: 5 });
    let failure = Request::try_from("GET /a//b HTTP/1.1\r\n\r\n").unwrap_err();
    assert_eq!(failure, ParseError { kind: ErrorKind::EmptySegment, offset: 7 });
    let failure = Request::try_from("GET /a/b//c//d HTTP/1.1\r\n\r\n").unwrap_err();
    assert_eq!(failure, ParseError { kind: ErrorKind::EmptySegment, offset: 9 });
}

#[test]
fn trailing_slash_fails() {
    let failure = Request::try_from("GET /a/ HTTP/1.1\r\n\r\n").unwrap_err();
    assert_eq!(failure, ParseError { kind: ErrorKind::EmptySegment, offset: 7 });
    let failure = Request::try_from("GET /a/?x=1 HTTP/1.1\r\n\r\n").unwrap_err();
    assert_eq!(failure, ParseError { kind: ErrorKind::EmptySegment, offset: 7 });
    let failure = Request::try_from("GET /a/#f HTTP/1.1\r\n\r\n").unwrap_err();
    assert_eq!(failure, ParseError { kind: ErrorKind::EmptySegment, offset: 7 });
}

#[test]
fn two_slashes_after_the_path_are_no_empty_segment() {
    let request = Request::try_from("GET /a#b//c HTTP/1.1\r\n\r\n").unwrap();
    assert_eq!(request.endpoint.segments, vec!["a"]);
    assert_eq!(request.endpoint.fragment, Some("b//c"));
    let failure = Request::try_from("GET /a?b=c//d HTTP/1.1\r\n\r\n").unwrap_err();
    assert_eq!(failure, ParseError { kind: ErrorKind::MissingSpace, offset: 10 });
}

#[test]
fn malformed_query_pairs_fail() {
    let failure = Request::try_from("GET /a?x HTTP/1.1\r\n\r\n").unwrap_err();
    assert_eq!(failure, ParseError { kind: ErrorKind::MalformedQueryPair, offset: 8 });
    let failure = Request::try_from("GET /a?=v HTTP/1.1\r\n\r\n").unwrap_err();
    assert_eq!(failure, ParseError { kind: ErrorKind::MalformedQueryPair, offset: 7 });
    let failure = Request::try_from("GET /a?x= HTTP/1.1\r\n\r\n").unwrap_err();
    assert_eq!(failure, ParseError { kind: ErrorKind::MalformedQueryPair, offset: 9 });
    let failure = Request::try_from("GET /a?x=1& HTTP/1.1\r\n\r\n").unwrap_err();
    assert_eq!(failure, ParseError { kind: ErrorKind::MalformedQueryPair, offset: 11 });
    let failure = Request::try_from("GET /a?&x=1 HTTP/1.1\r\n\r\n").unwrap_err();
    assert_eq!(failure, ParseError { kind: ErrorKind::MalformedQueryPair, offset: 7 });
    let failure = Request::try_from("GET /a?x=1&y HTTP/1.1\r\n\r\n").unwrap_err();
    assert_eq!(failure, ParseError { kind: ErrorKind::MalformedQueryPair, offset: 12 });
}

#[test]
fn query_marker_without_pairs_is_an_empty_query() {
    let request = Request::try_from("GET /a? HTTP/1.1\r\n\r\n").unwrap();
    assert_eq!(request.endpoint.segments, vec!["a"]);
    assert!(request.endpoint.parameters.is_empty());
    let request = Request::try_from("GET /?#f HTTP/1.1\r\n\r\n").unwrap();
    assert!(request.endpoint.segments.is_empty());
    assert!(request.endpoint.parameters.is_empty());
    assert_eq!(request.endpoint.fragment, Some("f"));
}

#[test]
fn duplicate_query_keys_are_kept() {
    let request = Request::try_from("GET /?a=1&a=2&b=3&a=1 HTTP/1.1\r\n\r\n").unwrap();
    assert_eq!(
        request.endpoint.parameters,
        vec![
            Field { name: "a", value: "1" },
            Field { name: "a", value: "2" },
            Field { name: "b", value: "3" },
            Field { name: "a", value: "1" },
        ]
    );
}

#[test]
fn fragment_runs_to_the_end_of_the_target() {
    let request = Request::try_from("GET /a#b?c=d&e HTTP/1.1\r\n\r\n").unwrap();
    assert!(request.endpoint.parameters.is_empty());
    assert_eq!(request.endpoint.fragment, Some("b?c=d&e"));
    let request = Request::try_from("GET /a?x=1#y#z HTTP/1.1\r\n\r\n").unwrap();
    assert_eq!(request.endpoint.parameters, vec![Field { name: "x", value: "1" }]);
    assert_eq!(request.endpoint.fragment, Some("y#z"));
    let request = Request::try_from("GET /#. HTTP/1.1\r\n\r\n").unwrap();
    assert_eq!(request.endpoint.fragment, Some("."));
}

#[test]
fn fragment_is_never_empty() {
    let failure = Request::try_from("GET /a# HTTP/1.1\r\n\r\n").unwrap_err();
    assert_eq!(failure, ParseError { kind: ErrorKind::MissingSpace, offset: 6 });
    let failure = Request::try_from("GET /a?x=1#\r\n").unwrap_err();
    assert_eq!(failure, ParseError { kind: ErrorKind::MissingSpace, offset: 10 });
    let failure = Request::try_from("GET /#").unwrap_err();
    assert_eq!(failure, ParseError { kind: ErrorKind::MissingSpace, offset: 5 });
}

#[test]
fn fragment_stops_at_the_line_end() {
    let failure = Request::try_from("GET /a#b\r\nHost: x\r\n\r\n").unwrap_err();
    assert_eq!(failure, ParseError { kind: ErrorKind::MissingSpace, offset: 8 });
}

#[test]
fn versions() {
    let request = Request::try_from("GET / HTTP/1.0\r\n\r\n").unwrap();
    assert_eq!(request.version, Version::HTTP1_0);
    let request = Request::try_from("GET / HTTP\r\n\r\n").unwrap();
    assert_eq!(request.version, Version::OTHER("HTTP"));
    let request = Request::try_from("GET / spdy\n\n").unwrap();
    assert_eq!(request.version, Version::OTHER("spdy"));
}

#[test]
fn version_with_digits_is_not_captured() {
    let failure = Request::try_from("GET / HTTP/2\r\n\r\n").unwrap_err();
    assert_eq!(failure, ParseError { kind: ErrorKind::MissingLineEnd, offset: 10 });
    let failure = Request::try_from("GET / HTTP/1.1x\r\n\r\n").unwrap_err();
    assert_eq!(failure, ParseError { kind: ErrorKind::MissingLineEnd, offset: 14 });
}

#[test]
fn empty_version_fails() {
    let failure = Request::try_from("GET / 1.1\r\n\r\n").unwrap_err();
    assert_eq!(failure, ParseError { kind: ErrorKind::EmptyVersion, offset: 6 });
    let failure = Request::try_from("GET / ").unwrap_err();
    assert_eq!(failure, ParseError { kind: ErrorKind::EmptyVersion, offset: 6 });
}

#[test]
fn missing_line_end_fails() {
    let failure = Request::try_from("GET / HTTP/1.1").unwrap_err();
    assert_eq!(failure, ParseError { kind: ErrorKind::MissingLineEnd, offset: 14 });
    let failure = Request::try_from("GET / HTTP/1.1\rHost: x\r\n").unwrap_err();
    assert_eq!(failure, ParseError { kind: ErrorKind::MissingLineEnd, offset: 14 });
    let failure = Request::try_from("GET / HTTP/1.1 \r\n").unwrap_err();
    assert_eq!(failure, ParseError { kind: ErrorKind::MissingLineEnd, offset: 14 });
}

#[test]
fn characters_outside_ascii_are_kept_where_any_character_may_stand() {
    let request = Request::try_from("POST / HTTP/1.1\r\n\r\n\u{e9}").unwrap();
    assert_eq!(request.method, Method::POST);
    assert_eq!(request.body, "\u{e9}");
    let input = "GET /a#\u{3b1}\u{3b2} HTTP/1.1\r\nHost: \u{4e16}\u{754c} x\r\nB: 1\n\n\u{1f600}!";
    let (rest, request) = parse_http_request(input).unwrap();
    assert_eq!(request.endpoint.fragment, Some("\u{3b1}\u{3b2}"));
    assert_eq!(
        request.headers,
        vec![Field { name: "Host", value: "\u{4e16}\u{754c} x" }, Field { name: "B", value: "1" }]
    );
    assert_eq!(request.body, "\u{1f600}!");
    assert_eq!(rest, "\u{1f600}!");
}

#[test]
fn characters_outside_ascii_are_no_token_characters() {
    let failure = Request::try_from("GET /caf\u{e9} HTTP/1.1\r\n\r\n").unwrap_err();
    assert_eq!(failure, ParseError { kind: ErrorKind::MissingSpace, offset: 8 });
    let failure = Request::try_from("\u{e9} / HTTP/1.1\r\n\r\n").unwrap_err();
    assert_eq!(failure, ParseError { kind: ErrorKind::EmptyMethod, offset: 0 });
    let failure = Request::try_from("GET \u{e9}").unwrap_err();
    assert_eq!(failure, ParseError { kind: ErrorKind::MissingPathRoot, offset: 4 });
    let failure = Request::try_from("GET //\u{e9}").unwrap_err();
    assert_eq!(failure, ParseError { kind: ErrorKind::EmptySegment, offset: 5 });
    let failure = Request::try_from("GET / \u{e9}").unwrap_err();
    assert_eq!(failure, ParseError { kind: ErrorKind::EmptyVersion, offset: 6 });
    let failure = Request::try_from("GET /?k=\u{e9}").unwrap_err();
    assert_eq!(failure, ParseError { kind: ErrorKind::MalformedQueryPair, offset: 8 });
}

#[test]
fn offsets_count_characters() {
    let failure = Request::try_from("GET / HTTP/1.1\r\nA: \u{e9}\r\nBad\r\n").unwrap_err();
    assert_eq!(failure, ParseError { kind: ErrorKind::MalformedHeaderLine, offset: 25 });
}

#[test]
fn invalid_encoding_is_for_the_caller_to_give() {
    let failure = ParseError::new(ErrorKind::InvalidEncoding, 3);
    assert_eq!(failure, ParseError { kind: ErrorKind::InvalidEncoding, offset: 3 });
}

#[test]
fn header_order_and_duplicates_are_kept() {
    let input = "GET / HTTP/1.1\r\nB: 1\r\nA: 2\r\nB: 3\r\nA: 2\r\nb: 4\r\n\r\n";
    let request = Request::try_from(input).unwrap();
    assert_eq!(
        request.headers,
        vec![
            Field { name: "B", value: "1" },
            Field { name: "A", value: "2" },
            Field { name: "B", value: "3" },
            Field { name: "A", value: "2" },
            Field { name: "b", value: "4" },
        ]
    );
}

#[test]
fn header_values_are_kept_raw() {
    let input = "GET / HTTP/1.1\r\nA:x\r\nB:  y  \r\nC: a, b\r\nD: \r\nE:\r\nF: p\rq\r\n\r\n";
    let request = Request::try_from(input).unwrap();
    assert_eq!(
        request.headers,
        vec![
            Field { name: "A", value: "x" },
            Field { name: "B", value: " y  " },
            Field { name: "C", value: "a, b" },
            Field { name: "D", value: "" },
            Field { name: "E", value: "" },
            Field { name: "F", value: "p\rq" },
        ]
    );
}

#[test]
fn only_one_carriage_return_belongs_to_the_line_end() {
    let request = Request::try_from("GET / HTTP/1.1\r\nA: x\r\r\n\r\n").unwrap();
    assert_eq!(request.headers, vec![Field { name: "A", value: "x\r" }]);
}

#[test]
fn mixed_line_ends_are_accepted() {
    let request = Request::try_from("GET / HTTP/1.1\nA: 1\r\nB: 2\n\r\nrest").unwrap();
    assert_eq!(
        request.headers,
        vec![Field { name: "A", value: "1" }, Field { name: "B", value: "2" }]
    );
    assert_eq!(request.body, "rest");
}

#[test]
fn header_line_without_line_end_fails() {
    let failure = Request::try_from("GET / HTTP/1.1\r\nHost: x").unwrap_err();
    assert_eq!(failure, ParseError { kind: ErrorKind::MalformedHeaderLine, offset: 23 });
    let failure = Request::try_from("GET / HTTP/1.1\r\nHost: x\r").unwrap_err();
    assert_eq!(failure, ParseError { kind: ErrorKind::MalformedHeaderLine, offset: 24 });
}

#[test]
fn header_name_followed_by_space_fails() {
    let failure = Request::try_from("GET / HTTP/1.1\r\nHost : x\r\n\r\n").unwrap_err();
    assert_eq!(failure, ParseError { kind: ErrorKind::MalformedHeaderLine, offset: 20 });
    let failure = Request::try_from("GET / HTTP/1.1\r\nA: 1\r\nHost").unwrap_err();
    assert_eq!(failure, ParseError { kind: ErrorKind::MalformedHeaderLine, offset: 26 });
}

#[test]
fn body_is_what_follows_the_blank_line() {
    let request = Request::try_from("POST /f HTTP/1.1\r\nA: 1\r\n\r\nline one\r\nline two").unwrap();
    assert_eq!(request.body, "line one\r\nline two");
    let request = Request::try_from("POST /f HTTP/1.1\r\n\r\n\r\nx").unwrap();
    assert_eq!(request.body, "\r\nx");
}

#[test]
fn body_without_blank_line_is_kept_whole() {
    let request = Request::try_from("POST /f HTTP/1.1\r\nA: 1\r\n body").unwrap();
    assert_eq!(request.headers, vec![Field { name: "A", value: "1" }]);
    assert_eq!(request.body, " body");
    let request = Request::try_from("GET / HTTP/1.1\r\n").unwrap();
    assert!(request.headers.is_empty());
    assert_eq!(request.body, "");
}

#[test]
fn rest_is_the_body() {
    let (rest, request) = parse_http_request("GET / HTTP/1.1\r\nA: 1\r\n\r\nbody").unwrap();
    assert_eq!(rest, "body");
    assert_eq!(request.body, "body");
}

#[test]
fn failure_returns_nothing_of_the_request() {
    let outcome = Request::try_from("GET /ok?x=1 HTTP/1.1\r\nGood: 1\r\nBad\r\n\r\n");
    assert_eq!(
        outcome.unwrap_err(),
        ParseError { kind: ErrorKind::MalformedHeaderLine, offset: 34 }
    );
}

#[test]
fn first_failure_is_the_one_reported() {
    let failure = Request::try_from("GET //a?x HTTP/9\r\nBad\r\n").unwrap_err();
    assert_eq!(failure, ParseError { kind: ErrorKind::EmptySegment, offset: 5 });
}

use http_request::http::request::Request;
use http_request::http::text::{append_joined, push_part};
use http_request::http::{append_fields, Endpoint, Field, Method, Version};

fn sample() -> Request<'static> {
    Request {
        method: Method::POST,
        endpoint: Endpoint {
            segments: vec!["path", "to", "file"],
            parameters: vec![
                Field { name: "hello", value: "world" },
                Field { name: "foo", value: "bar" },
            ],
            fragment: Some("fragment"),
        },
        version: Version::HTTP1_1,
        headers: vec![
            Field { name: "Host", value: "www.example.com" },
            Field { name: "Accept", value: "a, b" },
            Field { name: "Host", value: "again" },
        ],
        body: "the body",
    }
}

#[test]
fn field_is_shown_as_name_and_value() {
    assert_eq!(Field { name: "Host", value: "x y" }.to_string(), "Host: x y");
    assert_eq!(Field { name: "", value: "" }.to_string(), ": ");
}

#[test]
fn method_is_shown_as_its_token() {
    assert_eq!(Method::GET.to_string(), "GET");
    assert_eq!(Method::HEAD.to_string(), "HEAD");
    assert_eq!(Method::POST.to_string(), "POST");
    assert_eq!(Method::PUT.to_string(), "PUT");
    assert_eq!(Method::DELETE.to_string(), "DELETE");
    assert_eq!(Method::CONNECT.to_string(), "CONNECT");
    assert_eq!(Method::OPTIONS.to_string(), "OPTIONS");
    assert_eq!(Method::TRACE.to_string(), "TRACE");
    assert_eq!(Method::PATCH.to_string(), "PATCH");
    assert_eq!(Method::OTHER("PURGE").to_string(), "PURGE");
    assert_eq!(Method::OTHER("PURGE").as_str(), "PURGE");
}

#[test]
fn version_is_shown_as_it_stands_on_the_wire() {
    assert_eq!(Version::HTTP1_0.to_string(), "HTTP/1.0");
    assert_eq!(Version::HTTP1_1.to_string(), "HTTP/1.1");
    assert_eq!(Version::OTHER("ICY").to_string(), "ICY");
    assert_eq!(Version::HTTP1_0.as_str(), "HTTP/1.0");
    assert_eq!(Version::HTTP1_1.as_str(), "HTTP/1.1");
    assert_eq!(Version::OTHER("ICY").as_str(), "ICY");
}

#[test]
fn defaults() {
    assert_eq!(Method::default(), Method::OTHER(""));
    assert_eq!(Version::default(), Version::OTHER(""));
    let endpoint = Endpoint::default();
    assert!(endpoint.segments.is_empty());
    assert!(endpoint.parameters.is_empty());
    assert_eq!(endpoint.fragment, None);
    let request = Request::default();
    assert_eq!(request.method, Method::OTHER(""));
    assert_eq!(request.version, Version::OTHER(""));
    assert!(request.endpoint.segments.is_empty());
    assert!(request.headers.is_empty());
    assert_eq!(request.body, "");
}

#[test]
fn request_starts_with_its_request_line() {
    let request = Request {
        method: Method::GET,
        endpoint: Endpoint {
            segments: vec!["a", "b"],
            parameters: vec![Field { name: "k", value: "v" }, Field { name: "k2", value: "v2" }],
            fragment: Some("f"),
        },
        version: Version::HTTP1_1,
        headers: vec![Field { name: "Host", value: "x" }],
        body: "",
    };
    assert!(request.to_string().starts_with("GET /a/b?k=v&k2=v2#f HTTP/1.1\r\n"));
    assert_eq!(request.to_string(), "GET /a/b?k=v&k2=v2#f HTTP/1.1\r\nHost: x\r\n\r\n");
}

#[test]
fn request_on_the_wire() {
    let expected = "POST /path/to/file?hello=world&foo=bar#fragment HTTP/1.1\r\n\
        Host: www.example.com\r\n\
        Accept: a, b\r\n\
        Host: again\r\n\
        \r\n\
        the body";
    assert_eq!(sample().to_string(), expected);
}

#[test]
fn smallest_request_on_the_wire() {
    let request = Request {
        method: Method::GET,
        endpoint: Endpoint { segments: vec![], parameters: vec![], fragment: None },
        version: Version::HTTP1_0,
        headers: vec![],
        body: "",
    };
    assert_eq!(request.to_string(), "GET / HTTP/1.0\r\n\r\n");
}

fn assert_round_trip(request: &Request<'_>) {
    let text = request.to_string();
    let parsed = Request::try_from(text.as_str()).unwrap();
    assert_eq!(parsed.method, request.method);
    assert_eq!(parsed.endpoint.segments, request.endpoint.segments);
    assert_eq!(parsed.endpoint.parameters, request.endpoint.parameters);
    assert_eq!(parsed.endpoint.fragment, request.endpoint.fragment);
    assert_eq!(parsed.version, request.version);
    assert_eq!(parsed.headers, request.headers);
    assert_eq!(parsed.body, request.body);
    assert_eq!(parsed.to_string(), text);
}

#[test]
fn writing_and_parsing_gives_the_request_back() {
    assert_round_trip(&sample());
    assert_round_trip(&Request {
        method: Method::GET,
        endpoint: Endpoint { segments: vec![], parameters: vec![], fragment: None },
        version: Version::HTTP1_0,
        headers: vec![],
        body: "",
    });
    assert_round_trip(&Request {
        method: Method::OTHER("M-SEARCH"),
        endpoint: Endpoint { segments: vec!["a"], parameters: vec![], fragment: Some("#") },
        version: Version::OTHER("ICY"),
        headers: vec![
            Field { name: "X", value: "" },
            Field { name: "X", value: " lead" },
            Field { name: "Y", value: "trail \r" },
        ],
        body: "\r\nA: not a header\r\n",
    });
    assert_round_trip(&Request {
        method: Method::DELETE,
        endpoint: Endpoint {
            segments: vec![],
            parameters: vec![Field { name: "k", value: "v" }],
            fragment: Some("x?y=z#w//"),
        },
        version: Version::HTTP1_1,
        headers: vec![Field { name: "A-b_1", value: "\tv: w \u{e9}" }],
        body: "tail \u{4e16}\u{754c}",
    });
}

#[test]
fn every_keyword_comes_back() {
    let methods = [
        Method::GET,
        Method::HEAD,
        Method::POST,
        Method::PUT,
        Method::DELETE,
        Method::CONNECT,
        Method::OPTIONS,
        Method::TRACE,
        Method::PATCH,
    ];
    for method in methods {
        for version in [Version::HTTP1_0, Version::HTTP1_1] {
            assert_round_trip(&Request {
                method,
                endpoint: Endpoint { segments: vec!["s"], parameters: vec![], fragment: None },
                version,
                headers: vec![Field { name: "H", value: "v" }],
                body: "",
            });
        }
    }
}

#[test]
fn parts_are_joined() {
    let mut out = String::from(">");
    append_joined(&mut out, &vec!["a", "b", "c"], ", ");
    assert_eq!(out, ">a, b, c");
    append_joined(&mut out, &vec![], ", ");
    assert_eq!(out, ">a, b, c");
    append_joined(&mut out, &vec!["d"], ", ");
    assert_eq!(out, ">a, b, cd");
    push_part(&mut out, true, "-", "e");
    assert_eq!(out, ">a, b, cde");
    push_part(&mut out, false, "-", "f");
    assert_eq!(out, ">a, b, cde-f");
}

#[test]
fn fields_are_joined() {
    let mut out = String::new();
    let fields = vec![Field { name: "a", value: "1" }, Field { name: "b", value: "2" }];
    append_fields(&mut out, &fields, "=", "&");
    assert_eq!(out, "a=1&b=2");
    append_fields(&mut out, &vec![], "=", "&");
    assert_eq!(out, "a=1&b=2");
}

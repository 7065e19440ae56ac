use http_request::http::request::parser::parse_http_request;
use http_request::http::request::Request;
use http_request::http::{Header, Method, RequestParameter, Version};

#[test]
fn it_works() {
    let input = r#"GET /path/to/file?hello=world&foo=bar#fragment HTTP/1.1
User-Agent: curl7.16.3 libcurl/7.16.3 OpenSSL/0.9.7l zlib/1.2.3
Host: www.example.com
Accept-Language: en, mi

        "#;
    let result = parse_http_request(input);
    println!("{:?}", result.unwrap().1);
}

#[test]
fn try_from_and_display_works() {
    let input =
            "GET /path/to/entrypoint?hello=world&foo=bar#fragment HTTP/1.1\r\n\
            User-Agent: curl7.16.3 libcurl/7.16.3 OpenSSL/0.9.7l zlib/1.2.3\r\n\
            Host: www.example.com\r\n\
            Accept-Language: en\r\n
            \r\n\
            ";
    assert!(input.ends_with("Accept-Language: en\r\n\n            \r\n"));
    match Request::try_from(input) {
        Ok(request) => {
            println!("\n{:?}", request);
            assert_eq!(
                request.method, Method::GET,
                "The two methods we're comparing are not the same!"
            );
            assert_eq!(
                request.endpoint.segments, vec!["path", "to", "entrypoint"],
                "The two segment vectors we're comparing are not the same!"
            );
            assert_eq!(
                request.endpoint.parameters, vec![
                    RequestParameter { name: "hello", value: "world" },
                    RequestParameter { name: "foo", value: "bar" }
                ],
                "The two parameter vectors we're comparing are not the same!"
            );
            assert_eq!(
                request.endpoint.fragment, Option::from("fragment"),
                "The two fragments we're comparing are not the same!"
            );
            assert_eq!(
                request.version, Version::HTTP1_1,
                "The two protocols we're comparing are not the same!"
            );
            assert_eq!(
                request.headers, vec![
                    Header { name: "User-Agent", value: "curl7.16.3 libcurl/7.16.3 OpenSSL/0.9.7l zlib/1.2.3" },
                    Header { name: "Host", value: "www.example.com" },
                    Header { name: "Accept-Language", value: "en" }
                ],
                "The two header vectors we're comparing are not the same!"
            );
            println!("{}", request.to_string());
        }
        _ => {}
    }
}

#[test]
fn parse_http_request_works() {
    let input =
        "GET /favicon.ico HTTP/1.1\r\n\
        Host: 127.0.0.1:8080\r\n\
        Connection: keep-alive\r\n\
        User-Agent: Mozilla/5.0 (Macintosh; Intel Mac OS X 10_15_7) AppleWebKit/537.36 (KHTML, like Gecko) Chrome/105.0.0.0 Safari/537.36\r\n\
        Accept: image/avif,image/webp,image/apng,image/svg+xml,image/*,*/*;q=0.8\r\n\
        Sec-GPC: 1\
        Accept-Language: da\r\n\
        Sec-Fetch-Site: same-origin\r\n\
        Sec-Fetch-Mode: no-cors\r\n\
        Sec-Fetch-Dest: image\r\n\
        Referer: http://127.0.0.1:8080/\r\n\
        Accept-Encoding: gzip, deflate, br\r\n\
        ";
    match parse_http_request(input) {
        Ok(result) => {
            let request = result.1;
            println!("\n{:?}", request);
            assert_eq!(
                request.method, Method::GET,
                "The two methods we're comparing are not the same!"
            );
            assert_eq!(
                request.endpoint.segments, vec!["some", "service", "path"],
                "The two segment vectors we're comparing are not the same!"
            );
            assert_eq!(
                request.endpoint.parameters, vec![
                    RequestParameter { name: "hello", value: "world" },
                    RequestParameter { name: "foo", value: "bar" }
                ],
                "The two parameter vectors we're comparing are not the same!"
            );
            assert_eq!(
                request.endpoint.fragment, Option::from("fragment"),
                "The two fragments we're comparing are not the same!"
            );
            assert_eq!(
                request.version, Version::HTTP1_1,
                "The two protocols we're comparing are not the same!"
            );
            assert_eq!(
                request.headers, vec![
                    Header { name: "User-Agent", value: "curl7.16.3 libcurl/7.16.3 OpenSSL/0.9.7l zlib/1.2.3" },
                    Header { name: "Host", value: "www.example.com" },
                    Header { name: "Accept-Language", value: "en" }
                ],
                "The two header vectors we're comparing are not the same!"
            );
            println!("\n{}", request.to_string());
        },
        _ => {}
    }
}

use http::httprequest::{
    process_header_line, process_req_line, HttpRequest, Method, ParseError, Resource, Version,
};

fn header<'a>(req: &'a HttpRequest, name: &str) -> Option<&'a str> {
    req.headers.get(name).map(|value| value.as_str())
}

fn path(req: &HttpRequest) -> &str {
    match &req.resource {
        Resource::Path(path) => path.as_str(),
    }
}

#[test]
fn test_method_into() {
    let method: Method = "GET".into();
    assert_eq!(method, Method::GET);
}

#[test]
fn test_version_into() {
    let v: Version = "HTTP/1.1".into();
    assert_eq!(v, Version::V1_1)
}

#[test]
fn test_http_request_into() {
    let req: HttpRequest = String::from(
        "GET /api/user/1 HTTP/1.1
Accept: application/json, text/plain, */*
Cache-Control: no-cache
Connection: keep-alive
Host: 127.0.0.1",
    )
    .into();

    assert!(req.headers.contains_key("Accept"));
    assert!(req.headers.contains_key("Cache-Control"));
    assert!(req.headers.contains_key("Connection"));
    assert!(req.headers.contains_key("Host"));
    assert_eq!(Method::GET, req.method);
    assert_eq!(Version::V1_1, req.version);
    assert_eq!(Resource::Path(String::from("/api/user/1")), req.resource);
}

#[test]
fn method_names_are_matched_exactly() {
    assert_eq!(Method::from("GET"), Method::GET);
    assert_eq!(Method::from("POST"), Method::POST);
    assert_eq!(Method::from("get"), Method::Uninitialized);
    assert_eq!(Method::from("Post"), Method::Uninitialized);
    assert_eq!(Method::from("GET "), Method::Uninitialized);
    assert_eq!(Method::from("GE"), Method::Uninitialized);
    assert_eq!(Method::from("GETS"), Method::Uninitialized);
    assert_eq!(Method::from(""), Method::Uninitialized);
}

#[test]
fn version_names_are_matched_exactly() {
    assert_eq!(Version::from("HTTP/1.1"), Version::V1_1);
    assert_eq!(Version::from("HTTP/2.0"), Version::V2_0);
    assert_eq!(Version::from("http/1.1"), Version::Uninitialized);
    assert_eq!(Version::from("HTTP/1.0"), Version::Uninitialized);
    assert_eq!(Version::from("HTTP/2"), Version::Uninitialized);
    assert_eq!(Version::from("HTTP/1.1 "), Version::Uninitialized);
    assert_eq!(Version::from(""), Version::Uninitialized);
}

#[test]
fn unknown_method_and_version_are_uninitialized() {
    assert_eq!(Method::from("PATCH"), Method::Uninitialized);
    assert_eq!(Version::from("HTTP/3.0"), Version::Uninitialized);
    let req = HttpRequest::from(String::from("PATCH /things HTTP/3.0"));
    assert_eq!(req.method, Method::Uninitialized);
    assert_eq!(req.version, Version::Uninitialized);
    assert_eq!(path(&req), "/things");
    let strict = HttpRequest::try_parse("PATCH /things HTTP/3.0");
    assert!(strict.is_ok());
}

#[test]
fn resources_are_equal_by_their_paths() {
    assert!(Resource::Path(String::from("/a")) == Resource::Path(String::from("/a")));
    assert!(Resource::Path(String::from("/a")) != Resource::Path(String::from("/b")));
    assert!(Resource::Path(String::new()) != Resource::Path(String::from("/")));
}

#[test]
fn request_line_is_method_path_version() {
    let (method, resource, version) = process_req_line("POST /submit HTTP/2.0").unwrap();
    assert_eq!(method, Method::POST);
    assert_eq!(resource, Resource::Path(String::from("/submit")));
    assert_eq!(version, Version::V2_0);
}

#[test]
fn request_line_words_are_split_at_any_whitespace() {
    let (method, resource, version) =
        process_req_line("\t GET \u{a0}\u{3000} /a%20b?x=1   HTTP/1.1\r").unwrap();
    assert_eq!(method, Method::GET);
    assert_eq!(resource, Resource::Path(String::from("/a%20b?x=1")));
    assert_eq!(version, Version::V1_1);
}

#[test]
fn request_line_words_behind_the_third_are_passed_over() {
    let (method, resource, version) = process_req_line("GET / HTTP/1.1 and more").unwrap();
    assert_eq!(method, Method::GET);
    assert_eq!(resource, Resource::Path(String::from("/")));
    assert_eq!(version, Version::V1_1);
}

#[test]
fn request_line_with_two_words_is_malformed() {
    assert_eq!(process_req_line("GET /x").unwrap_err(), ParseError::MalformedRequestLine);
    assert_eq!(process_req_line("GET").unwrap_err(), ParseError::MalformedRequestLine);
    assert_eq!(process_req_line("").unwrap_err(), ParseError::MalformedRequestLine);
    assert_eq!(process_req_line("  \t ").unwrap_err(), ParseError::MalformedRequestLine);
    assert_eq!(process_req_line("GET HTTP/1.1").unwrap_err(), ParseError::MalformedRequestLine);
}

#[test]
fn two_words_without_a_version_make_a_body_line() {
    let req = HttpRequest::from(String::from("GET /x"));
    assert_eq!(req.method, Method::Uninitialized);
    assert_eq!(req.version, Version::Uninitialized);
    assert_eq!(path(&req), "");
    assert_eq!(req.msg_body, "GET /x");
    assert_eq!(req.headers.len(), 0);
    assert!(HttpRequest::try_parse("GET /x").is_ok());
}

#[test]
fn malformed_request_line_leaves_the_defaults() {
    let req = HttpRequest::from(String::from("GET HTTP/1.1\nHost: a"));
    assert_eq!(req.method, Method::Uninitialized);
    assert_eq!(req.version, Version::Uninitialized);
    assert_eq!(path(&req), "");
    assert_eq!(header(&req, "Host"), Some(" a"));
    assert_eq!(req.msg_body, "");
}

#[test]
fn malformed_request_line_resets_an_earlier_one() {
    let req = HttpRequest::parse("GET /a HTTP/1.1\nHTTP");
    assert_eq!(req.method, Method::Uninitialized);
    assert_eq!(req.version, Version::Uninitialized);
    assert_eq!(path(&req), "");
}

#[test]
fn try_parse_refuses_a_malformed_request_line() {
    let refused = HttpRequest::try_parse("GET HTTP/1.1\nHost: a");
    assert_eq!(refused.err(), Some(ParseError::MalformedRequestLine));
    let refused = HttpRequest::try_parse("GET /a HTTP/1.1\nHTTP\nGET /b HTTP/1.1");
    assert_eq!(refused.err(), Some(ParseError::MalformedRequestLine));
    let refused = HttpRequest::try_parse("Via: HTTP/1.1");
    assert_eq!(refused.err(), Some(ParseError::MalformedRequestLine));
}

#[test]
fn try_parse_agrees_with_parse_on_a_well_formed_text() {
    let text = "POST /form HTTP/2.0\r\nContent-Type: text/plain\r\n\r\nhello";
    let strict = HttpRequest::try_parse(text).unwrap();
    let lenient = HttpRequest::parse(text);
    assert_eq!(strict.method, lenient.method);
    assert_eq!(strict.version, lenient.version);
    assert_eq!(strict.resource, lenient.resource);
    assert_eq!(strict.msg_body, lenient.msg_body);
    assert_eq!(strict.headers.len(), lenient.headers.len());
    assert_eq!(header(&strict, "Content-Type"), header(&lenient, "Content-Type"));
    assert_eq!(strict.method, Method::POST);
    assert_eq!(strict.msg_body, "hello");
}

#[test]
fn header_line_is_cut_at_its_first_colon() {
    assert_eq!(
        process_header_line("Host: 127.0.0.1"),
        (String::from("Host"), String::from(" 127.0.0.1"))
    );
    assert_eq!(
        process_header_line("Date: Tue, 15 Nov 1994 08:12:31 GMT"),
        (String::from("Date"), String::from(" Tue, 15 Nov 1994 08:12:31 GMT"))
    );
    assert_eq!(process_header_line("a:b:c"), (String::from("a"), String::from("b:c")));
    assert_eq!(process_header_line("a::"), (String::from("a"), String::from(":")));
}

#[test]
fn header_line_is_not_trimmed() {
    assert_eq!(process_header_line(" a : b "), (String::from(" a "), String::from(" b ")));
    assert_eq!(process_header_line(":v"), (String::new(), String::from("v")));
    assert_eq!(process_header_line("k:"), (String::from("k"), String::new()));
    assert_eq!(process_header_line(":"), (String::new(), String::new()));
}

#[test]
fn header_line_without_a_colon_is_all_name() {
    assert_eq!(process_header_line("no colon"), (String::from("no colon"), String::new()));
    assert_eq!(process_header_line(""), (String::new(), String::new()));
}

#[test]
fn header_line_may_hold_any_chars() {
    assert_eq!(
        process_header_line("n\u{e4}me\u{1f600}:v\u{e4}lue"),
        (String::from("n\u{e4}me\u{1f600}"), String::from("v\u{e4}lue"))
    );
}

#[test]
fn method_first_request_with_headers() {
    let req = HttpRequest::from(String::from(
        "GET /api/user/1 HTTP/1.1\nAccept: application/json\nHost: 127.0.0.1",
    ));
    assert_eq!(req.method, Method::GET);
    assert_eq!(req.version, Version::V1_1);
    assert_eq!(req.resource, Resource::Path(String::from("/api/user/1")));
    assert_eq!(req.headers.len(), 2);
    assert_eq!(header(&req, "Accept"), Some(" application/json"));
    assert_eq!(header(&req, "Host"), Some(" 127.0.0.1"));
    assert_eq!(req.msg_body, "");
}

#[test]
fn version_first_request_line_is_read_in_the_one_order() {
    let req = HttpRequest::from(String::from("HTTP/1.1 GET /hello\n123\nfoo:bar"));
    assert_eq!(req.msg_body, "123");
    assert_eq!(req.headers.len(), 1);
    assert_eq!(header(&req, "foo"), Some("bar"));
    assert_eq!(req.method, Method::Uninitialized);
    assert_eq!(req.resource, Resource::Path(String::from("GET")));
    assert_eq!(req.version, Version::Uninitialized);
}

#[test]
fn text_without_a_request_line_has_no_method() {
    for text in ["", "\n\n", "Host: a\nbody", "GET /x http/1.1", "HTT P\nH T T P:x", "just a body"] {
        let req = HttpRequest::from(String::from(text));
        assert_eq!(req.method, Method::Uninitialized);
        assert_eq!(req.version, Version::Uninitialized);
        assert_eq!(path(&req), "");
    }
}

#[test]
fn parsing_twice_gives_the_same_request() {
    let text = "POST /a HTTP/2.0\nX: 1\nY: 2\nX: 3\n\nbody one\nbody two";
    let first = HttpRequest::from(String::from(text));
    let second = HttpRequest::from(String::from(text));
    assert_eq!(first.method, second.method);
    assert_eq!(first.version, second.version);
    assert_eq!(first.resource, second.resource);
    assert_eq!(first.msg_body, second.msg_body);
    assert_eq!(first.headers.len(), second.headers.len());
    for name in ["X", "Y", "Z"] {
        assert_eq!(header(&first, name), header(&second, name));
    }
}

#[test]
fn later_header_line_wins() {
    let req = HttpRequest::from(String::from("GET / HTTP/1.1\nX: first\nY: other\nX: second"));
    assert_eq!(req.headers.len(), 2);
    assert_eq!(header(&req, "X"), Some(" second"));
    assert_eq!(header(&req, "Y"), Some(" other"));
}

#[test]
fn header_names_differ_by_case_and_space() {
    let req = HttpRequest::from(String::from("host:a\nHost:b\nHost :c"));
    assert_eq!(req.headers.len(), 3);
    assert_eq!(header(&req, "host"), Some("a"));
    assert_eq!(header(&req, "Host"), Some("b"));
    assert_eq!(header(&req, "Host "), Some("c"));
}

#[test]
fn last_body_line_wins() {
    let req = HttpRequest::from(String::from("GET / HTTP/1.1\n\nfirst\nsecond\n\nthird\n"));
    assert_eq!(req.msg_body, "third");
}

#[test]
fn last_request_line_wins() {
    let req = HttpRequest::from(String::from("GET /a HTTP/1.1\nPOST /b HTTP/2.0"));
    assert_eq!(req.method, Method::POST);
    assert_eq!(path(&req), "/b");
    assert_eq!(req.version, Version::V2_0);
}

#[test]
fn line_with_http_anywhere_is_a_request_line() {
    let req = HttpRequest::from(String::from("GET / HTTP/1.1\nUpgrade: HTTP/2.0 now"));
    assert_eq!(req.method, Method::Uninitialized);
    assert_eq!(path(&req), "HTTP/2.0");
    assert_eq!(req.version, Version::Uninitialized);
    assert_eq!(req.headers.len(), 0);
}

#[test]
fn blank_lines_change_nothing() {
    let req = HttpRequest::from(String::from("\n\nGET / HTTP/1.1\n\n\nA:1\n\nbody\n\n"));
    assert_eq!(req.method, Method::GET);
    assert_eq!(header(&req, "A"), Some("1"));
    assert_eq!(req.msg_body, "body");
}

#[test]
fn carriage_return_before_a_line_feed_ends_the_line() {
    let req = HttpRequest::from(String::from("GET / HTTP/1.1\r\nHost: a\r\n\r\nbody\r\n"));
    assert_eq!(req.method, Method::GET);
    assert_eq!(req.version, Version::V1_1);
    assert_eq!(header(&req, "Host"), Some(" a"));
    assert_eq!(req.msg_body, "body");
    assert_eq!(req.headers.len(), 1);
}

#[test]
fn carriage_return_elsewhere_stays_in_the_line() {
    let req = HttpRequest::from(String::from("Host: a\r\r\nlast\r"));
    assert_eq!(header(&req, "Host"), Some(" a\r"));
    assert_eq!(req.msg_body, "last\r");
    let req = HttpRequest::from(String::from("\r"));
    assert_eq!(req.msg_body, "\r");
}

#[test]
fn empty_text_gives_the_blank_request() {
    let req = HttpRequest::from(String::new());
    assert_eq!(req.method, Method::Uninitialized);
    assert_eq!(req.version, Version::Uninitialized);
    assert_eq!(req.resource, Resource::Path(String::new()));
    assert!(req.headers.is_empty());
    assert_eq!(req.msg_body, "");
}

#[test]
fn parse_and_from_agree() {
    let text = "GET /x HTTP/1.1\nK:v\nb";
    let parsed = HttpRequest::parse(text);
    let converted: HttpRequest = String::from(text).into();
    assert_eq!(parsed.method, converted.method);
    assert_eq!(parsed.version, converted.version);
    assert_eq!(parsed.resource, converted.resource);
    assert_eq!(parsed.msg_body, converted.msg_body);
    assert_eq!(header(&parsed, "K"), header(&converted, "K"));
}

use httpcore::{HTTPRequest, HttpError, Method, Version};

#[test]
fn parses_simple_get() {
    let r = HTTPRequest::from_str("GET /foo HTTP/1.1\r\nHost: x\r\n\r\n").unwrap();
    assert_eq!(r.method, Method::GET);
    assert_eq!(r.path, "/foo");
    assert_eq!(r.version, Version::V11);
    assert_eq!(r.headers.len(), 1);
    assert_eq!(r.headers.get("Host"), Some("x".to_string()));
    assert_eq!(r.body, None);
}

#[test]
fn missing_tokens_are_distinct_errors() {
    assert_eq!(
        HTTPRequest::from_str("GET /foo\r\n\r\n").err(),
        Some(HttpError::MissingVersion)
    );
    assert_eq!(
        HTTPRequest::from_str("GET\r\n").err(),
        Some(HttpError::MissingPath)
    );
    assert_eq!(
        HTTPRequest::from_str("   \r\nHost: x\r\n").err(),
        Some(HttpError::MissingMethod)
    );
    assert_eq!(HTTPRequest::from_str("").err(), Some(HttpError::EmptyRequest));
    assert_eq!(
        HTTPRequest::from_str("BREW /pot HTTP/1.1\r\n").err(),
        Some(HttpError::UnrecognizedToken)
    );
    assert_eq!(
        HTTPRequest::from_str("GET /pot HTCPCP/1.0\r\n").err(),
        Some(HttpError::UnrecognizedToken)
    );
}

#[test]
fn header_without_colon_is_malformed() {
    assert_eq!(
        HTTPRequest::from_str("GET / HTTP/1.1\r\nHost x\r\n\r\n").err(),
        Some(HttpError::MalformedHeader)
    );
}

#[test]
fn header_with_empty_value() {
    let r = HTTPRequest::from_str("GET / HTTP/1.1\r\nX-Empty:   \r\n\r\n").unwrap();
    assert_eq!(HTTPRequest::get_header(&r, "X-Empty"), Some(String::new()));
    assert_eq!(HTTPRequest::get_header(&r, "Host"), None);
}

#[test]
fn later_header_wins_and_value_keeps_colons() {
    let r = HTTPRequest::from_str(
        "post /submit http/1.0\nA: 1\n  Host :  example.com:8080  \nA: 2\n",
    )
    .unwrap();
    assert_eq!(r.method, Method::POST);
    assert_eq!(r.path, "/submit");
    assert_eq!(r.version, Version::V10);
    assert_eq!(r.headers.len(), 2);
    assert_eq!(r.headers.get("A"), Some("2".to_string()));
    assert_eq!(r.headers.get("Host"), Some("example.com:8080".to_string()));
    assert_eq!(r.body, None);
}

#[test]
fn body_lines_are_joined() {
    let r = HTTPRequest::from_str(
        "POST /x HTTP/1.1\r\nContent-Type: text/plain\r\n\r\nline one\r\nline two",
    )
    .unwrap();
    assert_eq!(r.body, Some("line one\nline two".to_string()));
}

#[test]
fn extra_request_line_tokens_are_ignored() {
    let r = HTTPRequest::from_str("DELETE /item/7 HTTP/2.0 extra\r\n").unwrap();
    assert_eq!(r.method, Method::DELETE);
    assert_eq!(r.path, "/item/7");
    assert_eq!(r.version, Version::V20);
    assert_eq!(r.headers.len(), 0);
}

#[test]
fn cookies_are_extracted() {
    let r = HTTPRequest::from_str("GET / HTTP/1.1\r\nCookie: a=1; b=2\r\n\r\n").unwrap();
    let c = HTTPRequest::get_cookies(&r).unwrap();
    assert_eq!(c.len(), 2);
    assert_eq!(c.get("a"), Some("1".to_string()));
    assert_eq!(c.get("b"), Some("2".to_string()));
    assert_eq!(HTTPRequest::get_cookie(&r, "b"), Ok("2".to_string()));
    assert_eq!(
        HTTPRequest::get_cookie(&r, "c"),
        Err(HttpError::CookieNotFound)
    );
}

#[test]
fn missing_cookie_header_is_its_own_error() {
    let r = HTTPRequest::from_str("GET / HTTP/1.1\r\nHost: x\r\n\r\n").unwrap();
    assert_eq!(
        HTTPRequest::get_cookies(&r).err(),
        Some(HttpError::NoCookieHeader)
    );
    assert_eq!(
        HTTPRequest::get_cookie(&r, "a"),
        Err(HttpError::NoCookieHeader)
    );
}

#[test]
fn malformed_cookie_entry_is_refused() {
    let r = HTTPRequest::from_str("GET / HTTP/1.1\r\nCookie: a=1; flag\r\n\r\n").unwrap();
    assert_eq!(
        HTTPRequest::get_cookies(&r).err(),
        Some(HttpError::MalformedCookie)
    );
}

#[test]
fn cookie_value_is_kept_as_written() {
    let r = HTTPRequest::from_str("GET / HTTP/1.1\r\nCookie: a= 1 ; b=x=y\r\n\r\n").unwrap();
    let c = HTTPRequest::get_cookies(&r).unwrap();
    assert_eq!(c.get("a"), Some(" 1 ".to_string()));
    assert_eq!(c.get("b"), Some("x".to_string()));
}

#[test]
fn parse_through_from_str_trait() {
    let m: Method = "put".parse().unwrap();
    assert_eq!(m, Method::PUT);
    let v: Version = "http/3.0".parse().unwrap();
    assert_eq!(v, Version::V30);
    let r: HTTPRequest = "HEAD /h HTTP/1.1\n".parse().unwrap();
    assert_eq!(r.method, Method::HEAD);
    assert!(format!("{:?}", r).contains("/h"));
    let e: Result<Method, HttpError> = "nope".parse();
    assert_eq!(e, Err(HttpError::UnrecognizedToken));
}

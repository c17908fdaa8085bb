use httpcore::{Args, HTTPRequest, Method, Router, Version};

#[test]
fn route_matches_exact_triple() {
    let mut router: Router<u32> = Router::new();
    router.add_route(Method::GET, "/a", Version::V11, 1);
    let get = HTTPRequest::from_str("GET /a HTTP/1.1\r\n\r\n").unwrap();
    let post = HTTPRequest::from_str("POST /a HTTP/1.1\r\n\r\n").unwrap();
    let old = HTTPRequest::from_str("GET /a HTTP/1.0\r\n\r\n").unwrap();
    let other = HTTPRequest::from_str("GET /a/ HTTP/1.1\r\n\r\n").unwrap();
    assert_eq!(router.route(&get), Some(&1));
    assert_eq!(router.route(&post), None);
    assert_eq!(router.route(&old), None);
    assert_eq!(router.route(&other), None);
}

#[test]
fn route_registration_overwrites() {
    let mut router: Router<&str> = Router::new();
    router.add_route(Method::GET, "/a", Version::V11, "first");
    router.add_route(Method::POST, "/a", Version::V11, "post");
    router.add_route(Method::GET, "/a", Version::V11, "second");
    let get = HTTPRequest::from_str("GET /a HTTP/1.1\r\n\r\n").unwrap();
    let post = HTTPRequest::from_str("POST /a HTTP/1.1\r\n\r\n").unwrap();
    assert_eq!(router.route(&get), Some(&"second"));
    assert_eq!(router.route(&post), Some(&"post"));
}

#[test]
fn args_store_by_name() {
    let mut args: Args<i64> = Args::new();
    args.add_arg("counter", 0).add_arg("limit", 10);
    args.add_arg("counter", 5);
    assert_eq!(args.arg("counter"), Some(&5));
    assert_eq!(args.arg("limit"), Some(&10));
    assert_eq!(args.arg("missing"), None);
}

use httpcore::{HttpError, Method, StatusCode, Version};

#[test]
fn method_tokens_round_trip() {
    let tokens = [
        "GET", "HEAD", "POST", "PUT", "DELETE", "CONNECT", "OPTIONS", "TRACE", "PATCH",
    ];
    for t in tokens {
        let lower = t.to_lowercase();
        let m = Method::from_str(&lower).unwrap();
        assert_eq!(m.to_string(), t);
        assert_eq!(Method::from_str(t).unwrap(), m);
    }
    assert_eq!(Method::from_str("gEt").unwrap(), Method::GET);
}

#[test]
fn version_tokens_round_trip() {
    let tokens = [
        ("HTTP/1.0", Version::V10),
        ("HTTP/1.1", Version::V11),
        ("HTTP/2.0", Version::V20),
        ("HTTP/3.0", Version::V30),
    ];
    for (t, v) in tokens {
        assert_eq!(Version::from_str(t).unwrap(), v);
        assert_eq!(Version::from_str(&t.to_lowercase()).unwrap(), v);
        assert_eq!(v.to_string(), t);
    }
}

#[test]
fn unknown_tokens_are_refused() {
    assert_eq!(Method::from_str("FETCH"), Err(HttpError::UnrecognizedToken));
    assert_eq!(Method::from_str("GE"), Err(HttpError::UnrecognizedToken));
    assert_eq!(Method::from_str(""), Err(HttpError::UnrecognizedToken));
    assert_eq!(Version::from_str("HTTP/1.2"), Err(HttpError::UnrecognizedToken));
    assert_eq!(Version::from_str("HTTP/1"), Err(HttpError::UnrecognizedToken));
}

#[test]
fn status_lines() {
    assert_eq!(StatusCode::CODE200.to_string(), "200 OK");
    assert_eq!(StatusCode::CODE404.to_string(), "404 Not Found");
    assert_eq!(StatusCode::CODE409.to_string(), "409 Conflict");
    assert_eq!(StatusCode::CODE503.to_string(), "503 Service Unavailable");
    assert_eq!(
        StatusCode::CODE511.to_string(),
        "511 Network Authentication Required"
    );
}

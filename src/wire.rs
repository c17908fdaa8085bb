//! The wire vocabulary of HTTP/1.x: methods, versions, status codes, and
//! their text forms. Tokens are read case-insensitively (ASCII) and written in
//! their canonical upper-case form.
use crate::text::chars_of;
use vstd::prelude::*;

verus! {

/// Why a request, a token or a cookie could not be read.
#[derive(Debug, Clone, Copy, PartialEq, Eq, Structural)]
pub enum HttpError {
    /// The request holds no line at all.
    EmptyRequest,
    /// The request line holds no method token.
    MissingMethod,
    /// The request line holds no path token.
    MissingPath,
    /// The request line holds no version token.
    MissingVersion,
    /// A method or version token that is not in the catalog.
    UnrecognizedToken,
    /// A header line without a colon.
    MalformedHeader,
    /// The request has no `Cookie` header.
    NoCookieHeader,
    /// A cookie entry without `=`.
    MalformedCookie,
    /// The `Cookie` header does not name the requested cookie.
    CookieNotFound,
}

/// `c` upper-cased as `char::to_ascii_uppercase` does it is `t`.
pub open spec fn upper_is(c: char, t: char) -> bool {
    if 'a' <= c && c <= 'z' {
        c as u32 == t as u32 + 32
    } else {
        c == t
    }
}

/// `s` upper-cased (ASCII letters only) is `t`.
pub open spec fn eq_upper(s: Seq<char>, t: Seq<char>) -> bool {
    s.len() == t.len() && forall|i: int| 0 <= i < s.len() ==> upper_is(#[trigger] s[i], t[i])
}

/// Whether `v`, upper-cased, is `t`.
pub fn matches_upper(v: &Vec<char>, t: &str) -> (r: bool)
    ensures
        r == eq_upper(v@, t@),
{
    let tv = chars_of(t);
    if v.len() != tv.len() {
        return false;
    }
    let mut i: usize = 0;
    while i < v.len()
        invariant
            i <= v.len() == tv.len(),
            tv@ == t@,
            forall|j: int| 0 <= j < i ==> upper_is(#[trigger] v@[j], tv@[j]),
        decreases v.len() - i,
    {
        let c = v[i];
        let d = tv[i];
        let same = if 'a' <= c && c <= 'z' {
            c as u32 - 32 == d as u32
        } else {
            c == d
        };
        if !same {
            return false;
        }
        i += 1;
    }
    true
}

/// An HTTP request method.
#[derive(Debug, Clone, Copy, PartialEq, Eq, Hash, Structural)]
pub enum Method {
    GET,
    HEAD,
    POST,
    PUT,
    DELETE,
    CONNECT,
    OPTIONS,
    TRACE,
    PATCH,
}

/// The canonical text of a method.
pub open spec fn method_name(m: Method) -> Seq<char> {
    match m {
        Method::GET => "GET"@,
        Method::HEAD => "HEAD"@,
        Method::POST => "POST"@,
        Method::PUT => "PUT"@,
        Method::DELETE => "DELETE"@,
        Method::CONNECT => "CONNECT"@,
        Method::OPTIONS => "OPTIONS"@,
        Method::TRACE => "TRACE"@,
        Method::PATCH => "PATCH"@,
    }
}

/// The method whose canonical text is `s` upper-cased.
pub open spec fn method_of(s: Seq<char>) -> Option<Method> {
    if eq_upper(s, "GET"@) {
        Some(Method::GET)
    } else if eq_upper(s, "HEAD"@) {
        Some(Method::HEAD)
    } else if eq_upper(s, "POST"@) {
        Some(Method::POST)
    } else if eq_upper(s, "PUT"@) {
        Some(Method::PUT)
    } else if eq_upper(s, "DELETE"@) {
        Some(Method::DELETE)
    } else if eq_upper(s, "CONNECT"@) {
        Some(Method::CONNECT)
    } else if eq_upper(s, "OPTIONS"@) {
        Some(Method::OPTIONS)
    } else if eq_upper(s, "TRACE"@) {
        Some(Method::TRACE)
    } else if eq_upper(s, "PATCH"@) {
        Some(Method::PATCH)
    } else {
        None
    }
}

/// An HTTP protocol version.
#[derive(Debug, Clone, Copy, PartialEq, Eq, Hash, Structural)]
pub enum Version {
    V10,
    V11,
    V20,
    V30,
}

/// The canonical text of a version.
pub open spec fn version_name(v: Version) -> Seq<char> {
    match v {
        Version::V10 => "HTTP/1.0"@,
        Version::V11 => "HTTP/1.1"@,
        Version::V20 => "HTTP/2.0"@,
        Version::V30 => "HTTP/3.0"@,
    }
}

/// The version whose canonical text is `s` upper-cased.
pub open spec fn version_of(s: Seq<char>) -> Option<Version> {
    if eq_upper(s, "HTTP/1.0"@) {
        Some(Version::V10)
    } else if eq_upper(s, "HTTP/1.1"@) {
        Some(Version::V11)
    } else if eq_upper(s, "HTTP/2.0"@) {
        Some(Version::V20)
    } else if eq_upper(s, "HTTP/3.0"@) {
        Some(Version::V30)
    } else {
        None
    }
}

/// A response status from the fixed catalog this library speaks.
#[derive(Debug, Clone, Copy, PartialEq, Eq, Hash, Structural)]
pub enum StatusCode {
    CODE100,
    CODE102,
    CODE103,
    CODE200,
    CODE202,
    CODE204,
    CODE205,
    CODE206,
    CODE300,
    CODE301,
    CODE302,
    CODE303,
    CODE304,
    CODE307,
    CODE308,
    CODE400,
    CODE401,
    CODE403,
    CODE404,
    CODE405,
    CODE406,
    CODE408,
    CODE409,
    CODE500,
    CODE501,
    CODE502,
    CODE503,
    CODE504,
    CODE505,
    CODE511,
}

/// The status line text of a status: its code and reason phrase.
pub open spec fn status_text(s: StatusCode) -> Seq<char> {
    match s {
        StatusCode::CODE100 => "100 Continue"@,
        StatusCode::CODE102 => "102 Processing"@,
        StatusCode::CODE103 => "103 Early Hints"@,
        StatusCode::CODE200 => "200 OK"@,
        StatusCode::CODE202 => "202 Accepted"@,
        StatusCode::CODE204 => "204 No Content"@,
        StatusCode::CODE205 => "205 Reset Content"@,
        StatusCode::CODE206 => "206 Partial Content"@,
        StatusCode::CODE300 => "300 Multiple Choices"@,
        StatusCode::CODE301 => "301 Moved Permanently"@,
        StatusCode::CODE302 => "302 Found"@,
        StatusCode::CODE303 => "303 See Other"@,
        StatusCode::CODE304 => "304 Not Modified"@,
        StatusCode::CODE307 => "307 Temporary Redirect"@,
        StatusCode::CODE308 => "308 Permanent Redirect"@,
        StatusCode::CODE400 => "400 Bad Request"@,
        StatusCode::CODE401 => "401 Unauthorized"@,
        StatusCode::CODE403 => "403 Forbidden"@,
        StatusCode::CODE404 => "404 Not Found"@,
        StatusCode::CODE405 => "405 Method Not Allowed"@,
        StatusCode::CODE406 => "406 Not Acceptable"@,
        StatusCode::CODE408 => "408 Request Timeout"@,
        StatusCode::CODE409 => "409 Conflict"@,
        StatusCode::CODE500 => "500 Internal Server Error"@,
        StatusCode::CODE501 => "501 Not Implemented"@,
        StatusCode::CODE502 => "502 Bad Gateway"@,
        StatusCode::CODE503 => "503 Service Unavailable"@,
        StatusCode::CODE504 => "504 Gateway Timeout"@,
        StatusCode::CODE505 => "505 HTTP Version Not Supported"@,
        StatusCode::CODE511 => "511 Network Authentication Required"@,
    }
}

/// Round trip of methods: a token that reads as a method is, upper-cased, that
/// method's canonical text, and the canonical text of every method reads back
/// as the same method.
pub proof fn lemma_method_round_trip(s: Seq<char>, m: Method)
    ensures
        method_of(s) == Some(m) ==> eq_upper(s, method_name(m)),
        method_of(method_name(m)) == Some(m),
{
    reveal_strlit("GET");
    reveal_strlit("HEAD");
    reveal_strlit("POST");
    reveal_strlit("PUT");
    reveal_strlit("DELETE");
    reveal_strlit("CONNECT");
    reveal_strlit("OPTIONS");
    reveal_strlit("TRACE");
    reveal_strlit("PATCH");
    match m {
        Method::GET => {
            assert forall|i: int| 0 <= i < 3 implies upper_is(#[trigger] "GET"@[i], "GET"@[i]) by {
                assert(i == 0 || i == 1 || i == 2);
            }
        },
        Method::HEAD => {
            assert forall|i: int| 0 <= i < 4 implies upper_is(#[trigger] "HEAD"@[i], "HEAD"@[i]) by {
                assert(i == 0 || i == 1 || i == 2 || i == 3);
            }
        },
        Method::POST => {
            assert(!upper_is("POST"@[0], "HEAD"@[0]));
            assert forall|i: int| 0 <= i < 4 implies upper_is(#[trigger] "POST"@[i], "POST"@[i]) by {
                assert(i == 0 || i == 1 || i == 2 || i == 3);
            }
        },
        Method::PUT => {
            assert(!upper_is("PUT"@[0], "GET"@[0]));
            assert forall|i: int| 0 <= i < 3 implies upper_is(#[trigger] "PUT"@[i], "PUT"@[i]) by {
                assert(i == 0 || i == 1 || i == 2);
            }
        },
        Method::DELETE => {
            assert forall|i: int| 0 <= i < 6 implies upper_is(#[trigger] "DELETE"@[i], "DELETE"@[i]) by {
                assert(i == 0 || i == 1 || i == 2 || i == 3 || i == 4 || i == 5);
            }
        },
        Method::CONNECT => {
            assert forall|i: int| 0 <= i < 7 implies upper_is(#[trigger] "CONNECT"@[i], "CONNECT"@[i]) by {
                assert(i == 0 || i == 1 || i == 2 || i == 3 || i == 4 || i == 5 || i == 6);
            }
        },
        Method::OPTIONS => {
            assert(!upper_is("OPTIONS"@[0], "CONNECT"@[0]));
            assert forall|i: int| 0 <= i < 7 implies upper_is(#[trigger] "OPTIONS"@[i], "OPTIONS"@[i]) by {
                assert(i == 0 || i == 1 || i == 2 || i == 3 || i == 4 || i == 5 || i == 6);
            }
        },
        Method::TRACE => {
            assert forall|i: int| 0 <= i < 5 implies upper_is(#[trigger] "TRACE"@[i], "TRACE"@[i]) by {
                assert(i == 0 || i == 1 || i == 2 || i == 3 || i == 4);
            }
        },
        Method::PATCH => {
            assert(!upper_is("PATCH"@[0], "TRACE"@[0]));
            assert forall|i: int| 0 <= i < 5 implies upper_is(#[trigger] "PATCH"@[i], "PATCH"@[i]) by {
                assert(i == 0 || i == 1 || i == 2 || i == 3 || i == 4);
            }
        },
    }
}

/// Round trip of versions: a token that reads as a version is, upper-cased,
/// that version's canonical text, and the canonical text of every version
/// reads back as the same version.
pub proof fn lemma_version_round_trip(s: Seq<char>, v: Version)
    ensures
        version_of(s) == Some(v) ==> eq_upper(s, version_name(v)),
        version_of(version_name(v)) == Some(v),
{
    reveal_strlit("HTTP/1.0");
    reveal_strlit("HTTP/1.1");
    reveal_strlit("HTTP/2.0");
    reveal_strlit("HTTP/3.0");
    match v {
        Version::V10 => {
            assert forall|i: int| 0 <= i < 8 implies upper_is(#[trigger] "HTTP/1.0"@[i], "HTTP/1.0"@[i]) by {
                assert(i == 0 || i == 1 || i == 2 || i == 3 || i == 4 || i == 5 || i == 6 || i == 7);
            }
        },
        Version::V11 => {
            assert(!upper_is("HTTP/1.1"@[7], "HTTP/1.0"@[7]));
            assert forall|i: int| 0 <= i < 8 implies upper_is(#[trigger] "HTTP/1.1"@[i], "HTTP/1.1"@[i]) by {
                assert(i == 0 || i == 1 || i == 2 || i == 3 || i == 4 || i == 5 || i == 6 || i == 7);
            }
        },
        Version::V20 => {
            assert(!upper_is("HTTP/2.0"@[5], "HTTP/1.0"@[5]));
            assert(!upper_is("HTTP/2.0"@[5], "HTTP/1.1"@[5]));
            assert forall|i: int| 0 <= i < 8 implies upper_is(#[trigger] "HTTP/2.0"@[i], "HTTP/2.0"@[i]) by {
                assert(i == 0 || i == 1 || i == 2 || i == 3 || i == 4 || i == 5 || i == 6 || i == 7);
            }
        },
        Version::V30 => {
            assert(!upper_is("HTTP/3.0"@[5], "HTTP/1.0"@[5]));
            assert(!upper_is("HTTP/3.0"@[5], "HTTP/1.1"@[5]));
            assert(!upper_is("HTTP/3.0"@[5], "HTTP/2.0"@[5]));
            assert forall|i: int| 0 <= i < 8 implies upper_is(#[trigger] "HTTP/3.0"@[i], "HTTP/3.0"@[i]) by {
                assert(i == 0 || i == 1 || i == 2 || i == 3 || i == 4 || i == 5 || i == 6 || i == 7);
            }
        },
    }
}

impl Method {
    /// Reads a method token, ignoring ASCII case.
    pub fn from_chars(v: &Vec<char>) -> (r: Result<Method, HttpError>)
        ensures
            r == (match method_of(v@) {
                Some(m) => Ok(m),
                None => Err(HttpError::UnrecognizedToken),
            }),
    {
        if matches_upper(v, "GET") {
            Ok(Method::GET)
        } else if matches_upper(v, "HEAD") {
            Ok(Method::HEAD)
        } else if matches_upper(v, "POST") {
            Ok(Method::POST)
        } else if matches_upper(v, "PUT") {
            Ok(Method::PUT)
        } else if matches_upper(v, "DELETE") {
            Ok(Method::DELETE)
        } else if matches_upper(v, "CONNECT") {
            Ok(Method::CONNECT)
        } else if matches_upper(v, "OPTIONS") {
            Ok(Method::OPTIONS)
        } else if matches_upper(v, "TRACE") {
            Ok(Method::TRACE)
        } else if matches_upper(v, "PATCH") {
            Ok(Method::PATCH)
        } else {
            Err(HttpError::UnrecognizedToken)
        }
    }

    /// Reads a method token, ignoring ASCII case.
    pub fn from_str(s: &str) -> (r: Result<Method, HttpError>)
        ensures
            r == (match method_of(s@) {
                Some(m) => Ok(m),
                None => Err(HttpError::UnrecognizedToken),
            }),
    {
        Method::from_chars(&chars_of(s))
    }

    /// The canonical text of the method.
    pub fn to_string(&self) -> (r: String)
        ensures
            r@ == method_name(*self),
    {
        match self {
            Method::GET => "GET".to_owned(),
            Method::HEAD => "HEAD".to_owned(),
            Method::POST => "POST".to_owned(),
            Method::PUT => "PUT".to_owned(),
            Method::DELETE => "DELETE".to_owned(),
            Method::CONNECT => "CONNECT".to_owned(),
            Method::OPTIONS => "OPTIONS".to_owned(),
            Method::TRACE => "TRACE".to_owned(),
            Method::PATCH => "PATCH".to_owned(),
        }
    }
}

impl Version {
    /// Reads a version token, ignoring ASCII case.
    pub fn from_chars(v: &Vec<char>) -> (r: Result<Version, HttpError>)
        ensures
            r == (match version_of(v@) {
                Some(x) => Ok(x),
                None => Err(HttpError::UnrecognizedToken),
            }),
    {
        if matches_upper(v, "HTTP/1.0") {
            Ok(Version::V10)
        } else if matches_upper(v, "HTTP/1.1") {
            Ok(Version::V11)
        } else if matches_upper(v, "HTTP/2.0") {
            Ok(Version::V20)
        } else if matches_upper(v, "HTTP/3.0") {
            Ok(Version::V30)
        } else {
            Err(HttpError::UnrecognizedToken)
        }
    }

    /// Reads a version token, ignoring ASCII case.
    pub fn from_str(s: &str) -> (r: Result<Version, HttpError>)
        ensures
            r == (match version_of(s@) {
                Some(x) => Ok(x),
                None => Err(HttpError::UnrecognizedToken),
            }),
    {
        Version::from_chars(&chars_of(s))
    }

    /// The canonical text of the version.
    pub fn to_string(&self) -> (r: String)
        ensures
            r@ == version_name(*self),
    {
        match self {
            Version::V10 => "HTTP/1.0".to_owned(),
            Version::V11 => "HTTP/1.1".to_owned(),
            Version::V20 => "HTTP/2.0".to_owned(),
            Version::V30 => "HTTP/3.0".to_owned(),
        }
    }
}

impl StatusCode {
    /// The status line text: code, a space, and the reason phrase.
    pub fn to_string(&self) -> (r: String)
        ensures
            r@ == status_text(*self),
    {
        match self {
            StatusCode::CODE100 => "100 Continue".to_owned(),
            StatusCode::CODE102 => "102 Processing".to_owned(),
            StatusCode::CODE103 => "103 Early Hints".to_owned(),
            StatusCode::CODE200 => "200 OK".to_owned(),
            StatusCode::CODE202 => "202 Accepted".to_owned(),
            StatusCode::CODE204 => "204 No Content".to_owned(),
            StatusCode::CODE205 => "205 Reset Content".to_owned(),
            StatusCode::CODE206 => "206 Partial Content".to_owned(),
            StatusCode::CODE300 => "300 Multiple Choices".to_owned(),
            StatusCode::CODE301 => "301 Moved Permanently".to_owned(),
            StatusCode::CODE302 => "302 Found".to_owned(),
            StatusCode::CODE303 => "303 See Other".to_owned(),
            StatusCode::CODE304 => "304 Not Modified".to_owned(),
            StatusCode::CODE307 => "307 Temporary Redirect".to_owned(),
            StatusCode::CODE308 => "308 Permanent Redirect".to_owned(),
            StatusCode::CODE400 => "400 Bad Request".to_owned(),
            StatusCode::CODE401 => "401 Unauthorized".to_owned(),
            StatusCode::CODE403 => "403 Forbidden".to_owned(),
            StatusCode::CODE404 => "404 Not Found".to_owned(),
            StatusCode::CODE405 => "405 Method Not Allowed".to_owned(),
            StatusCode::CODE406 => "406 Not Acceptable".to_owned(),
            StatusCode::CODE408 => "408 Request Timeout".to_owned(),
            StatusCode::CODE409 => "409 Conflict".to_owned(),
            StatusCode::CODE500 => "500 Internal Server Error".to_owned(),
            StatusCode::CODE501 => "501 Not Implemented".to_owned(),
            StatusCode::CODE502 => "502 Bad Gateway".to_owned(),
            StatusCode::CODE503 => "503 Service Unavailable".to_owned(),
            StatusCode::CODE504 => "504 Gateway Timeout".to_owned(),
            StatusCode::CODE505 => "505 HTTP Version Not Supported".to_owned(),
            StatusCode::CODE511 => "511 Network Authentication Required".to_owned(),
        }
    }
}

impl std::str::FromStr for Method {
    type Err = HttpError;

    /// Reads a method token, as `Method::from_str` does.
    fn from_str(s: &str) -> Result<Method, HttpError> {
        Method::from_str(s)
    }
}

impl std::str::FromStr for Version {
    type Err = HttpError;

    /// Reads a version token, as `Version::from_str` does.
    fn from_str(s: &str) -> Result<Version, HttpError> {
        Version::from_str(s)
    }
}

} // verus!

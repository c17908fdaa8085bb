//! Reading a request from its raw text, and the header and cookie lookups on it.
use crate::table::{map_of, TextMap};
use crate::text::{
    chars_of, copy_range, find_char, first_index, join_from, joined, lemma_first_index_range,
    is_ws, lemma_first_index_prefix, lines_of, pieces, split_chars, split_lines, split_words, string_of, trim, trim_start, trimmed, views, words_of,
};
use crate::wire::{method_of, version_of, HttpError, Method, Version};
use vstd::prelude::*;

verus! {

/// A parsed request: method, path, version, header fields, and body.
#[derive(Debug)]
pub struct HTTPRequest {
    pub method: Method,
    pub path: String,
    pub version: Version,
    pub headers: TextMap,
    pub body: Option<String>,
}

/// The view of an optional string.
pub open spec fn opt_view(s: Option<String>) -> Option<Seq<char>> {
    match s {
        Some(t) => Some(t@),
        None => None,
    }
}

/// What a request holds, as values: method, path, version, header map, body.
pub type RequestModel = (Method, Seq<char>, Version, Map<Seq<char>, Seq<char>>, Option<Seq<char>>);

/// The request line: method, path and version tokens, in that order; further tokens are ignored.
pub open spec fn request_line(l: Seq<char>) -> Result<(Method, Seq<char>, Version), HttpError> {
    let w = words_of(l);
    if w.len() == 0 {
        Err(HttpError::MissingMethod)
    } else {
        match method_of(w[0]) {
            None => Err(HttpError::UnrecognizedToken),
            Some(m) => if w.len() < 2 {
                Err(HttpError::MissingPath)
            } else if w.len() < 3 {
                Err(HttpError::MissingVersion)
            } else {
                match version_of(w[2]) {
                    None => Err(HttpError::UnrecognizedToken),
                    Some(v) => Ok((m, w[1], v)),
                }
            },
        }
    }
}

/// The index of the first empty line of `ls` at or after `i`, or the number of lines.
pub open spec fn header_end(ls: Seq<Seq<char>>, i: int) -> int
    decreases ls.len() - i,
{
    if i >= ls.len() {
        ls.len() as int
    } else if ls[i].len() == 0 {
        i
    } else {
        header_end(ls, i + 1)
    }
}

/// A header line split at its first colon, both sides trimmed.
pub open spec fn header_field(l: Seq<char>) -> (Seq<char>, Seq<char>) {
    let i = first_index(l, ':')->0;
    (trimmed(l.take(i)), trimmed(l.skip(i + 1)))
}

/// The header map of a run of header lines: a later line wins.
pub open spec fn fields_of(hs: Seq<Seq<char>>) -> Map<Seq<char>, Seq<char>> {
    map_of(hs.map_values(|l: Seq<char>| header_field(l)))
}

/// The body: the lines after the blank line `k`, joined by line feeds, if there are any.
pub open spec fn body_of(ls: Seq<Seq<char>>, k: int) -> Option<Seq<char>> {
    if k + 1 < ls.len() {
        Some(joined(ls.subrange(k + 1, ls.len() as int), '\n'))
    } else {
        None
    }
}

/// What reading the text `s` as a request gives.
pub open spec fn parse_request(s: Seq<char>) -> Result<RequestModel, HttpError> {
    let ls = lines_of(s);
    if ls.len() == 0 {
        Err(HttpError::EmptyRequest)
    } else {
        match request_line(ls[0]) {
            Err(e) => Err(e),
            Ok((m, p, v)) => {
                let k = header_end(ls, 1);
                let hs = ls.subrange(1, k);
                if exists|j: int| 0 <= j < hs.len() && (#[trigger] first_index(hs[j], ':')) is None {
                    Err(HttpError::MalformedHeader)
                } else {
                    Ok((m, p, v, fields_of(hs), body_of(ls, k)))
                }
            },
        }
    }
}

/// A cookie entry holds at least one `=`.
pub open spec fn cookie_entry_ok(e: Seq<char>) -> bool {
    pieces(e, '=').len() >= 2
}

/// A cookie entry's name and value: the text before its first `=`, trimmed, and
/// the text between that and the next `=` (or the end), exactly as written.
pub open spec fn cookie_pair(e: Seq<char>) -> (Seq<char>, Seq<char>) {
    let p = pieces(e, '=');
    (trimmed(p[0]), p[1])
}

/// The cookies of a `Cookie` header value: its `;`-separated entries; a later
/// entry with the same name wins.
pub open spec fn cookies_in(h: Seq<char>) -> Result<Map<Seq<char>, Seq<char>>, HttpError> {
    let es = pieces(h, ';');
    if exists|j: int| 0 <= j < es.len() && !cookie_entry_ok(#[trigger] es[j]) {
        Err(HttpError::MalformedCookie)
    } else {
        Ok(map_of(es.map_values(|e: Seq<char>| cookie_pair(e))))
    }
}

/// The cookies of a request with header map `headers`.
pub open spec fn request_cookies(headers: Map<Seq<char>, Seq<char>>) -> Result<
    Map<Seq<char>, Seq<char>>,
    HttpError,
> {
    if headers.contains_key("Cookie"@) {
        cookies_in(headers["Cookie"@])
    } else {
        Err(HttpError::NoCookieHeader)
    }
}

pub proof fn lemma_header_end_bounds(ls: Seq<Seq<char>>, i: int)
    requires
        0 <= i <= ls.len(),
    ensures
        i <= header_end(ls, i) <= ls.len(),
    decreases ls.len() - i,
{
    if i < ls.len() && ls[i].len() != 0 {
        lemma_header_end_bounds(ls, i + 1);
    }
}

/// A request line with a method and a path but no third token is refused as
/// missing its version.
pub proof fn lemma_missing_version(s: Seq<char>)
    requires
        lines_of(s).len() > 0,
        words_of(lines_of(s)[0]).len() == 2,
        method_of(words_of(lines_of(s)[0])[0]) is Some,
    ensures
        parse_request(s) == Err::<RequestModel, HttpError>(HttpError::MissingVersion),
{
}

/// A header line without a colon, before the blank line, makes the request malformed.
pub proof fn lemma_header_without_colon(s: Seq<char>, j: int)
    requires
        lines_of(s).len() > 0,
        request_line(lines_of(s)[0]) is Ok,
        1 <= j < header_end(lines_of(s), 1),
        first_index(lines_of(s)[j], ':') is None,
    ensures
        parse_request(s) == Err::<RequestModel, HttpError>(HttpError::MalformedHeader),
{
    let ls = lines_of(s);
    lemma_header_end_bounds(ls, 1);
    let hs = ls.subrange(1, header_end(ls, 1));
    assert(hs[j - 1] == ls[j]);
    assert(first_index(hs[j - 1], ':') is None);
}

proof fn lemma_trim_start_blank(s: Seq<char>)
    requires
        forall|i: int| 0 <= i < s.len() ==> is_ws(#[trigger] s[i]),
    ensures
        trim_start(s) == Seq::<char>::empty(),
    decreases s.len(),
{
    if s.len() > 0 {
        lemma_trim_start_blank(s.drop_first());
    }
}

/// A header line whose colon is followed by nothing but whitespace has an
/// empty value; its name is the trimmed text before the colon.
pub proof fn lemma_empty_header_value(name: Seq<char>, rest: Seq<char>)
    requires
        first_index(name, ':') is None,
        forall|i: int| 0 <= i < rest.len() ==> is_ws(#[trigger] rest[i]),
    ensures
        header_field(name + seq![':'] + rest) == (trimmed(name), Seq::<char>::empty()),
{
    let l = name + seq![':'] + rest;
    let k = name.len() as int;
    assert(l.take(k + 1).drop_last() =~= name);
    assert(first_index(l.take(k + 1), ':') == Some(k));
    lemma_first_index_prefix(l, k + 1, ':');
    assert(l.take(k) =~= name);
    assert(l.skip(k + 1) =~= rest);
    lemma_trim_start_blank(rest);
}

impl HTTPRequest {
    /// What the request holds, as values.
    pub open spec fn model(&self) -> RequestModel {
        (self.method, self.path@, self.version, self.headers@, opt_view(self.body))
    }

    /// Reads a request from its raw text: a request line, header lines up to
    /// the first empty line, and the remaining lines as the body.
    pub fn from_str(s: &str) -> (r: Result<HTTPRequest, HttpError>)
        ensures
            match r {
                Ok(q) => q.headers.wf() && parse_request(s@) == Ok::<RequestModel, HttpError>(
                    q.model(),
                ),
                Err(e) => parse_request(s@) == Err::<RequestModel, HttpError>(e),
            },
    {
        let cs = chars_of(s);
        let ls = split_lines(&cs);
        let ghost lv = views(ls@);
        if ls.len() == 0 {
            return Err(HttpError::EmptyRequest);
        }
        let w = split_words(&ls[0]);
        if w.len() == 0 {
            return Err(HttpError::MissingMethod);
        }
        let method = match Method::from_chars(&w[0]) {
            Ok(m) => m,
            Err(e) => {
                return Err(e);
            },
        };
        if w.len() < 2 {
            return Err(HttpError::MissingPath);
        }
        if w.len() < 3 {
            return Err(HttpError::MissingVersion);
        }
        let version = match Version::from_chars(&w[2]) {
            Ok(v) => v,
            Err(e) => {
                return Err(e);
            },
        };
        let path = string_of(&w[1]);
        assert(request_line(lv[0]) == Ok::<(Method, Seq<char>, Version), HttpError>(
            (method, path@, version),
        ));
        let mut headers = TextMap::new();
        let mut i: usize = 1;
        assert(lv.subrange(1, 1).map_values(|l: Seq<char>| header_field(l)) =~= Seq::<
            (Seq<char>, Seq<char>),
        >::empty());
        while i < ls.len() && ls[i].len() > 0
            invariant
                lv == views(ls@),
                lv == lines_of(s@),
                request_line(lv[0]) == Ok::<(Method, Seq<char>, Version), HttpError>(
                    (method, path@, version),
                ),
                1 <= i <= ls.len(),
                header_end(lv, 1) == header_end(lv, i as int),
                forall|j: int| 1 <= j < i ==> (#[trigger] first_index(lv[j], ':')) is Some,
                headers.wf(),
                headers@ == fields_of(lv.subrange(1, i as int)),
            decreases ls.len() - i,
        {
            let line = &ls[i];
            proof {
                lemma_header_end_bounds(lv, i as int + 1);
            }
            match find_char(line, ':') {
                None => {
                    let ghost hs = lv.subrange(1, header_end(lv, 1));
                    assert(hs[i - 1] == lv[i as int]);
                    return Err(HttpError::MalformedHeader);
                },
                Some(idx) => {
                    proof {
                        lemma_first_index_range(line@, ':');
                    }
                    let name = trim(&copy_range(line, 0, idx));
                    let value = trim(&copy_range(line, idx + 1, line.len()));
                    assert(line@.subrange(0, idx as int) =~= line@.take(idx as int));
                    assert(line@.subrange(idx + 1, line@.len() as int) =~= line@.skip(idx + 1));
                    let ghost before = lv.subrange(1, i as int);
                    headers.insert(string_of(&name), string_of(&value));
                    assert(lv.subrange(1, i + 1).map_values(|l: Seq<char>| header_field(l)).drop_last()
                        =~= before.map_values(|l: Seq<char>| header_field(l)));
                },
            }
            i += 1;
        }
        proof {
            lemma_header_end_bounds(lv, i as int);
        }
        assert(header_end(lv, i as int) == i);
        let body = if ls.len() - i > 1 {
            Some(string_of(&join_from(&ls, i + 1, '\n')))
        } else {
            None
        };
        let r = HTTPRequest { method, path, version, headers, body };
        assert(r.model() == (method, path@, version, headers@, body_of(lv, i as int)));
        Ok(r)
    }

    /// The value of header `header`, if the request has it.
    pub fn get_header(request: &HTTPRequest, header: &str) -> (r: Option<String>)
        requires
            request.headers.wf(),
        ensures
            r is Some <==> request.headers@.contains_key(header@),
            r matches Some(v) ==> v@ == request.headers@[header@],
    {
        request.headers.get(header)
    }

    /// The cookies that the request's `Cookie` header sets.
    pub fn get_cookies(request: &HTTPRequest) -> (r: Result<TextMap, HttpError>)
        requires
            request.headers.wf(),
        ensures
            match r {
                Ok(c) => c.wf() && request_cookies(request.headers@) == Ok::<
                    Map<Seq<char>, Seq<char>>,
                    HttpError,
                >(c@),
                Err(e) => request_cookies(request.headers@) == Err::<
                    Map<Seq<char>, Seq<char>>,
                    HttpError,
                >(e),
            },
    {
        let data = match HTTPRequest::get_header(request, "Cookie") {
            Some(d) => d,
            None => {
                return Err(HttpError::NoCookieHeader);
            },
        };
        let hv = chars_of(data.as_str());
        let es = split_chars(&hv, ';');
        let ghost ev = views(es@);
        let mut cookies = TextMap::new();
        let mut j: usize = 0;
        assert(ev.take(0).map_values(|e: Seq<char>| cookie_pair(e)) =~= Seq::<
            (Seq<char>, Seq<char>),
        >::empty());
        while j < es.len()
            invariant
                ev == views(es@),
                ev == pieces(request.headers@["Cookie"@], ';'),
                request.headers@.contains_key("Cookie"@),
                j <= es.len(),
                forall|k: int| 0 <= k < j ==> cookie_entry_ok(#[trigger] ev[k]),
                cookies.wf(),
                cookies@ == map_of(ev.take(j as int).map_values(|e: Seq<char>| cookie_pair(e))),
            decreases es.len() - j,
        {
            let parts = split_chars(&es[j], '=');
            if parts.len() < 2 {
                assert(!cookie_entry_ok(ev[j as int]));
                return Err(HttpError::MalformedCookie);
            }
            let name = trim(&parts[0]);
            let value = copy_range(&parts[1], 0, parts[1].len());
            assert(value@ =~= parts[1]@);
            let ghost before = ev.take(j as int);
            cookies.insert(string_of(&name), string_of(&value));
            assert(ev.take(j + 1).map_values(|e: Seq<char>| cookie_pair(e)).drop_last()
                =~= before.map_values(|e: Seq<char>| cookie_pair(e)));
            j += 1;
        }
        assert(ev.take(j as int) =~= ev);
        Ok(cookies)
    }

    /// The value of cookie `cookie`.
    pub fn get_cookie(request: &HTTPRequest, cookie: &str) -> (r: Result<String, HttpError>)
        requires
            request.headers.wf(),
        ensures
            match request_cookies(request.headers@) {
                Err(e) => r == Err::<String, HttpError>(e),
                Ok(m) => if m.contains_key(cookie@) {
                    r matches Ok(v) && v@ == m[cookie@]
                } else {
                    r == Err::<String, HttpError>(HttpError::CookieNotFound)
                },
            },
    {
        let cookies = match HTTPRequest::get_cookies(request) {
            Ok(c) => c,
            Err(e) => {
                return Err(e);
            },
        };
        match cookies.get(cookie) {
            Some(v) => Ok(v),
            None => Err(HttpError::CookieNotFound),
        }
    }
}

impl std::str::FromStr for HTTPRequest {
    type Err = HttpError;

    /// Reads a request from its raw text, as `HTTPRequest::from_str` does.
    fn from_str(s: &str) -> Result<HTTPRequest, HttpError> {
        HTTPRequest::from_str(s)
    }
}

} // verus!

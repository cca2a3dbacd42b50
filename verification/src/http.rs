use vstd::prelude::*;
use crate::error::ParseError;
use crate::text::str_eq;

verus! {

/// The closed enumeration of accepted HTTP methods.
#[derive(Debug, Clone, Copy, PartialEq, Eq, Structural)]
pub enum HttpMethod {
    GET,
    POST,
    PUT,
    DELETE,
    HEAD,
    OPTIONS,
    CONNECT,
    TRACE,
    PATCH,
}

/// The exact token that renders a method.
pub open spec fn method_str(m: HttpMethod) -> Seq<char> {
    match m {
        HttpMethod::GET => "GET"@,
        HttpMethod::POST => "POST"@,
        HttpMethod::PUT => "PUT"@,
        HttpMethod::DELETE => "DELETE"@,
        HttpMethod::HEAD => "HEAD"@,
        HttpMethod::OPTIONS => "OPTIONS"@,
        HttpMethod::CONNECT => "CONNECT"@,
        HttpMethod::TRACE => "TRACE"@,
        HttpMethod::PATCH => "PATCH"@,
    }
}

/// The method whose token is exactly `s`, if any (case-sensitive).
pub open spec fn method_of(s: Seq<char>) -> Option<HttpMethod> {
    if s == "GET"@ {
        Some(HttpMethod::GET)
    } else if s == "POST"@ {
        Some(HttpMethod::POST)
    } else if s == "PUT"@ {
        Some(HttpMethod::PUT)
    } else if s == "DELETE"@ {
        Some(HttpMethod::DELETE)
    } else if s == "HEAD"@ {
        Some(HttpMethod::HEAD)
    } else if s == "OPTIONS"@ {
        Some(HttpMethod::OPTIONS)
    } else if s == "CONNECT"@ {
        Some(HttpMethod::CONNECT)
    } else if s == "TRACE"@ {
        Some(HttpMethod::TRACE)
    } else if s == "PATCH"@ {
        Some(HttpMethod::PATCH)
    } else {
        None
    }
}

impl HttpMethod {
    pub fn new(method: &str) -> (r: Result<HttpMethod, ParseError>)
        ensures
            match method_of(method@) {
                Some(m) => r matches Ok(x) && x == m,
                None => r is Err,
            },
    {
        if str_eq(method, "GET") {
            Ok(HttpMethod::GET)
        } else if str_eq(method, "POST") {
            Ok(HttpMethod::POST)
        } else if str_eq(method, "PUT") {
            Ok(HttpMethod::PUT)
        } else if str_eq(method, "DELETE") {
            Ok(HttpMethod::DELETE)
        } else if str_eq(method, "HEAD") {
            Ok(HttpMethod::HEAD)
        } else if str_eq(method, "OPTIONS") {
            Ok(HttpMethod::OPTIONS)
        } else if str_eq(method, "CONNECT") {
            Ok(HttpMethod::CONNECT)
        } else if str_eq(method, "TRACE") {
            Ok(HttpMethod::TRACE)
        } else if str_eq(method, "PATCH") {
            Ok(HttpMethod::PATCH)
        } else {
            Err(ParseError::new())
        }
    }

    pub fn to_string(&self) -> (r: &str)
        ensures
            r@ == method_str(*self),
    {
        match self {
            HttpMethod::GET => "GET",
            HttpMethod::POST => "POST",
            HttpMethod::PUT => "PUT",
            HttpMethod::DELETE => "DELETE",
            HttpMethod::HEAD => "HEAD",
            HttpMethod::OPTIONS => "OPTIONS",
            HttpMethod::CONNECT => "CONNECT",
            HttpMethod::TRACE => "TRACE",
            HttpMethod::PATCH => "PATCH",
        }
    }
}

/// Parsing and rendering of methods are exact inverses: rendering any
/// method parses back to it, and any token that parses renders back to
/// the same token.
pub proof fn lemma_method_round_trip(m: HttpMethod, s: Seq<char>)
    ensures
        method_of(method_str(m)) == Some(m),
        method_of(s) matches Some(x) ==> method_str(x) == s,
{
    reveal_strlit("GET");
    reveal_strlit("POST");
    reveal_strlit("PUT");
    reveal_strlit("DELETE");
    reveal_strlit("HEAD");
    reveal_strlit("OPTIONS");
    reveal_strlit("CONNECT");
    reveal_strlit("TRACE");
    reveal_strlit("PATCH");
    assert("GET"@.len() == 3 && "PUT"@.len() == 3 && "POST"@.len() == 4 && "HEAD"@.len() == 4
        && "PATCH"@.len() == 5 && "TRACE"@.len() == 5 && "DELETE"@.len() == 6
        && "OPTIONS"@.len() == 7 && "CONNECT"@.len() == 7);
    assert("GET"@[0] == 'G' && "PUT"@[0] == 'P' && "POST"@[0] == 'P' && "HEAD"@[0] == 'H'
        && "PATCH"@[0] == 'P' && "TRACE"@[0] == 'T' && "OPTIONS"@[0] == 'O' && "CONNECT"@[0]
        == 'C');
    match m {
        HttpMethod::GET => assert(method_of(method_str(m)) == Some(m)),
        HttpMethod::POST => assert(method_of(method_str(m)) == Some(m)),
        HttpMethod::PUT => assert(method_of(method_str(m)) == Some(m)),
        HttpMethod::DELETE => assert(method_of(method_str(m)) == Some(m)),
        HttpMethod::HEAD => assert(method_of(method_str(m)) == Some(m)),
        HttpMethod::OPTIONS => assert(method_of(method_str(m)) == Some(m)),
        HttpMethod::CONNECT => assert(method_of(method_str(m)) == Some(m)),
        HttpMethod::TRACE => assert(method_of(method_str(m)) == Some(m)),
        HttpMethod::PATCH => assert(method_of(method_str(m)) == Some(m)),
    }
}

/// The closed enumeration of accepted HTTP versions.
#[derive(Debug, Clone, Copy, PartialEq, Eq, Structural)]
pub enum HttpVersion {
    HTTP10,
    HTTP11,
    HTTP20,
    HTTP30,
}

/// The exact token that renders a version.
pub open spec fn version_str(v: HttpVersion) -> Seq<char> {
    match v {
        HttpVersion::HTTP10 => "HTTP/1.0"@,
        HttpVersion::HTTP11 => "HTTP/1.1"@,
        HttpVersion::HTTP20 => "HTTP/2.0"@,
        HttpVersion::HTTP30 => "HTTP/3.0"@,
    }
}

/// The version whose token is exactly `s`, if any (case-sensitive).
pub open spec fn version_of(s: Seq<char>) -> Option<HttpVersion> {
    if s == "HTTP/1.0"@ {
        Some(HttpVersion::HTTP10)
    } else if s == "HTTP/1.1"@ {
        Some(HttpVersion::HTTP11)
    } else if s == "HTTP/2.0"@ {
        Some(HttpVersion::HTTP20)
    } else if s == "HTTP/3.0"@ {
        Some(HttpVersion::HTTP30)
    } else {
        None
    }
}

impl HttpVersion {
    pub fn new(version: &str) -> (r: Result<HttpVersion, ParseError>)
        ensures
            match version_of(version@) {
                Some(v) => r matches Ok(x) && x == v,
                None => r is Err,
            },
    {
        if str_eq(version, "HTTP/1.0") {
            Ok(HttpVersion::HTTP10)
        } else if str_eq(version, "HTTP/1.1") {
            Ok(HttpVersion::HTTP11)
        } else if str_eq(version, "HTTP/2.0") {
            Ok(HttpVersion::HTTP20)
        } else if str_eq(version, "HTTP/3.0") {
            Ok(HttpVersion::HTTP30)
        } else {
            Err(ParseError::new())
        }
    }

    pub fn to_string(&self) -> (r: &str)
        ensures
            r@ == version_str(*self),
    {
        match self {
            HttpVersion::HTTP10 => "HTTP/1.0",
            HttpVersion::HTTP11 => "HTTP/1.1",
            HttpVersion::HTTP20 => "HTTP/2.0",
            HttpVersion::HTTP30 => "HTTP/3.0",
        }
    }
}

/// Parsing and rendering of versions are exact inverses.
pub proof fn lemma_version_round_trip(v: HttpVersion, s: Seq<char>)
    ensures
        version_of(version_str(v)) == Some(v),
        version_of(s) matches Some(x) ==> version_str(x) == s,
{
    reveal_strlit("HTTP/1.0");
    reveal_strlit("HTTP/1.1");
    reveal_strlit("HTTP/2.0");
    reveal_strlit("HTTP/3.0");
    assert("HTTP/1.0"@.len() == 8 && "HTTP/1.1"@.len() == 8 && "HTTP/2.0"@.len() == 8
        && "HTTP/3.0"@.len() == 8);
    assert("HTTP/1.0"@[5] == '1' && "HTTP/1.1"@[5] == '1' && "HTTP/2.0"@[5] == '2'
        && "HTTP/3.0"@[5] == '3');
    assert("HTTP/1.0"@[7] == '0' && "HTTP/1.1"@[7] == '1');
    match v {
        HttpVersion::HTTP10 => assert(version_of(version_str(v)) == Some(v)),
        HttpVersion::HTTP11 => assert(version_of(version_str(v)) == Some(v)),
        HttpVersion::HTTP20 => assert(version_of(version_str(v)) == Some(v)),
        HttpVersion::HTTP30 => assert(version_of(version_str(v)) == Some(v)),
    }
}

} // verus!

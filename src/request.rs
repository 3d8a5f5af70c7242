use vstd::prelude::*;

use vstd::string::StringSliceAdditionalSpecFns;

use crate::text::{bytes_equal, text_is};

verus! {

/// HTTP method.
#[derive(Debug, Clone, PartialEq, Eq)]
pub enum Method {
    Get,
    Head,
    Post,
    Put,
    Delete,
    Update,
    Connect,
    Options,
    Trace,
    Patch,
    /// Unknown or extension methods are preserved as their raw text.
    Unknown(String),
}

/// The standard method that a token names, matched case-sensitively on its bytes.
pub open spec fn known_method(b: Seq<u8>) -> Option<Method> {
    if b == seq![71u8, 69, 84] {
        Some(Method::Get)
    } else if b == seq![72u8, 69, 65, 68] {
        Some(Method::Head)
    } else if b == seq![80u8, 79, 83, 84] {
        Some(Method::Post)
    } else if b == seq![80u8, 85, 84] {
        Some(Method::Put)
    } else if b == seq![68u8, 69, 76, 69, 84, 69] {
        Some(Method::Delete)
    } else if b == seq![85u8, 80, 68, 65, 84, 69] {
        Some(Method::Update)
    } else if b == seq![67u8, 79, 78, 78, 69, 67, 84] {
        Some(Method::Connect)
    } else if b == seq![79u8, 80, 84, 73, 79, 78, 83] {
        Some(Method::Options)
    } else if b == seq![84u8, 82, 65, 67, 69] {
        Some(Method::Trace)
    } else if b == seq![80u8, 65, 84, 67, 72] {
        Some(Method::Patch)
    } else {
        None
    }
}

/// `m` is the method that the UTF-8 bytes `b` name.
pub open spec fn method_is(m: Method, b: Seq<u8>) -> bool {
    match known_method(b) {
        Some(k) => m == k,
        None => match m {
            Method::Unknown(u) => text_is(u, b),
            _ => false,
        },
    }
}

impl Method {
    /// Create a Method from a token, matching the standard methods case-sensitively
    /// on their uppercase forms; any other token is kept as `Unknown`.
    pub fn from_token(s: &str) -> (r: Method)
        ensures
            method_is(r, s.spec_bytes()),
    {
        proof {
            vstd::utf8::encode_utf8_valid_utf8(s@);
            vstd::utf8::encode_utf8_decode_utf8(s@);
        }
        let b = s.as_bytes();
        if bytes_equal(b, &[71u8, 69, 84]) {
            Method::Get
        } else if bytes_equal(b, &[72u8, 69, 65, 68]) {
            Method::Head
        } else if bytes_equal(b, &[80u8, 79, 83, 84]) {
            Method::Post
        } else if bytes_equal(b, &[80u8, 85, 84]) {
            Method::Put
        } else if bytes_equal(b, &[68u8, 69, 76, 69, 84, 69]) {
            Method::Delete
        } else if bytes_equal(b, &[85u8, 80, 68, 65, 84, 69]) {
            Method::Update
        } else if bytes_equal(b, &[67u8, 79, 78, 78, 69, 67, 84]) {
            Method::Connect
        } else if bytes_equal(b, &[79u8, 80, 84, 73, 79, 78, 83]) {
            Method::Options
        } else if bytes_equal(b, &[84u8, 82, 65, 67, 69]) {
            Method::Trace
        } else if bytes_equal(b, &[80u8, 65, 84, 67, 72]) {
            Method::Patch
        } else {
            Method::Unknown(s.to_string())
        }
    }
}

/// `s` is ASCII and encodes as `b`.
proof fn lemma_ascii_literal(s: &str, b: Seq<u8>)
    requires
        s@.len() == b.len(),
        forall|i: int| 0 <= i < b.len() ==> b[i] < 128 && #[trigger] s@[i] == b[i] as char,
    ensures
        s.spec_bytes() == b,
{
    assert forall|i: int| 0 <= i < s@.len() implies '\0' <= #[trigger] s@[i] <= '\u{7f}' && s@[i] as u8
        == b[i] by {
        let x = b[i];
        assert(s@[i] == x as char);
        assert(x < 128);
        assert('\0' <= (x as char) <= '\u{7f}' && (x as char) as u8 == x);
    }
    assert(vstd::string::is_ascii(s));
    vstd::string::is_ascii_spec_bytes(s);
    assert(s.spec_bytes() =~= b);
}

impl Method {
    /// The method's token as it stands in a start line.
    pub fn as_str(&self) -> (r: &str)
        ensures
            match self {
                Method::Unknown(u) => r@ == u@,
                _ => known_method(r.spec_bytes()) == Some(*self),
            },
    {
        match self {
            Method::Get => {
                proof {
                    reveal_strlit("GET");
                    lemma_ascii_literal("GET", seq![71u8, 69, 84]);
                }
                "GET"
            },
            Method::Head => {
                proof {
                    reveal_strlit("HEAD");
                    lemma_ascii_literal("HEAD", seq![72u8, 69, 65, 68]);
                }
                "HEAD"
            },
            Method::Post => {
                proof {
                    reveal_strlit("POST");
                    lemma_ascii_literal("POST", seq![80u8, 79, 83, 84]);
                }
                "POST"
            },
            Method::Put => {
                proof {
                    reveal_strlit("PUT");
                    lemma_ascii_literal("PUT", seq![80u8, 85, 84]);
                }
                "PUT"
            },
            Method::Delete => {
                proof {
                    reveal_strlit("DELETE");
                    lemma_ascii_literal("DELETE", seq![68u8, 69, 76, 69, 84, 69]);
                }
                "DELETE"
            },
            Method::Update => {
                proof {
                    reveal_strlit("UPDATE");
                    lemma_ascii_literal("UPDATE", seq![85u8, 80, 68, 65, 84, 69]);
                }
                "UPDATE"
            },
            Method::Connect => {
                proof {
                    reveal_strlit("CONNECT");
                    lemma_ascii_literal("CONNECT", seq![67u8, 79, 78, 78, 69, 67, 84]);
                }
                "CONNECT"
            },
            Method::Options => {
                proof {
                    reveal_strlit("OPTIONS");
                    lemma_ascii_literal("OPTIONS", seq![79u8, 80, 84, 73, 79, 78, 83]);
                }
                "OPTIONS"
            },
            Method::Trace => {
                proof {
                    reveal_strlit("TRACE");
                    lemma_ascii_literal("TRACE", seq![84u8, 82, 65, 67, 69]);
                }
                "TRACE"
            },
            Method::Patch => {
                proof {
                    reveal_strlit("PATCH");
                    lemma_ascii_literal("PATCH", seq![80u8, 65, 84, 67, 72]);
                }
                "PATCH"
            },
            Method::Unknown(u) => u.as_str(),
        }
    }
}

/// The first line of a request.
#[derive(Debug)]
pub struct StartLine {
    pub method: Method,
    pub path: String,
    pub version: String,
}

/// A parsed request: its start line, its headers as (lowercased name, trimmed
/// value) pairs with pairwise distinct names, and the body that `content-length`
/// announced, if any.
#[derive(Debug)]
pub struct Request {
    pub start_line: StartLine,
    pub headers: Vec<(String, String)>,
    pub body: Option<Vec<u8>>,
}

} // verus!

//! The request types and the decoder itself.

use vstd::prelude::*;
use vstd::string::StrSliceExecFns;

use crate::headers::Headers;
use crate::model::decode_lines;
use crate::model::header_key;
use crate::model::header_val;
use crate::model::lemma_decode_lines_push;
use crate::model::lemma_first_colon;
use crate::model::lemma_lines_state_newline;
use crate::model::lemma_lines_state_no_newline;
use crate::model::lines_state;
use crate::model::req_method;
use crate::model::req_resource;
use crate::model::req_version;
use crate::model::spec_decode;
use crate::model::spec_method;
use crate::model::spec_step;
use crate::model::spec_version;
use crate::model::strip_cr;
use crate::model::ReqModel;
use crate::text::contains_char;
use crate::text::contains_http;
use crate::text::find_colon;
use crate::text::split_tokens;
use crate::text::str_eq;

verus! {

/// The request method; a token other than `"GET"` or `"POST"` decodes to
/// `Uninitialized`.
#[derive(Debug, Clone, Copy, PartialEq, Eq, Structural)]
pub enum Method {
    Get,
    Post,
    Uninitialized,
}

/// The protocol version; a token other than `"HTTP/1.1"` decodes to
/// `Uninitialized`.
#[derive(Debug, Clone, Copy, PartialEq, Eq, Structural)]
pub enum Version {
    V1_1,
    V2_0,
    Uninitialized,
}

/// The request target, kept verbatim: no decoding, no normalization.
#[derive(Debug, PartialEq, Eq)]
pub enum Resource {
    Path(String),
}

impl View for Resource {
    type V = Seq<char>;

    open spec fn view(&self) -> Seq<char> {
        match self {
            Resource::Path(p) => p@,
        }
    }
}

impl Method {
    /// Decode a method token.
    pub fn from_token(s: &str) -> (m: Method)
        ensures
            m == spec_method(s@),
    {
        if str_eq(s, "GET") {
            Method::Get
        } else if str_eq(s, "POST") {
            Method::Post
        } else {
            Method::Uninitialized
        }
    }
}

impl From<&str> for Method {
    fn from(s: &str) -> Self {
        Method::from_token(s)
    }
}

impl vstd::std_specs::convert::FromSpecImpl<&str> for Method {
    open spec fn obeys_from_spec() -> bool {
        true
    }

    open spec fn from_spec(s: &str) -> Method {
        spec_method(s@)
    }
}

impl Version {
    /// Decode a version token.
    pub fn from_token(s: &str) -> (v: Version)
        ensures
            v == spec_version(s@),
    {
        if str_eq(s, "HTTP/1.1") {
            Version::V1_1
        } else {
            Version::Uninitialized
        }
    }
}

impl From<&str> for Version {
    fn from(s: &str) -> Self {
        Version::from_token(s)
    }
}

impl vstd::std_specs::convert::FromSpecImpl<&str> for Version {
    open spec fn obeys_from_spec() -> bool {
        true
    }

    open spec fn from_spec(s: &str) -> Version {
        spec_version(s@)
    }
}

/// A decoded request.
#[derive(Debug)]
pub struct HttpRequest {
    pub method: Method,
    pub version: Version,
    pub resource: Resource,
    pub headers: Headers,
    pub msg_body: String,
}

impl View for HttpRequest {
    type V = ReqModel;

    open spec fn view(&self) -> ReqModel {
        ReqModel {
            method: self.method,
            version: self.version,
            resource: self.resource@,
            headers: self.headers@,
            body: self.msg_body@,
        }
    }
}

/// Split a request line into its method, resource and version fields.
/// Missing tokens fall back to `Uninitialized` or empty values.
pub fn process_req_line(s: &str) -> (r: (Method, Resource, Version))
    ensures
        r.0 == req_method(s@),
        r.1@ == req_resource(s@),
        r.2 == req_version(s@),
{
    let toks = split_tokens(s);
    proof {
        let m = toks@.map_values(|t: String| t@);
        if toks@.len() >= 1 {
            assert(m[0] == toks@[0]@);
        }
        if toks@.len() >= 2 {
            assert(m[1] == toks@[1]@);
        }
        if toks@.len() >= 3 {
            assert(m[2] == toks@[2]@);
        }
    }
    let method = if toks.len() >= 1 {
        Method::from_token(toks[0].as_str())
    } else {
        Method::Uninitialized
    };
    let resource = if toks.len() >= 2 {
        toks[1].as_str().to_owned()
    } else {
        String::new()
    };
    let version = if toks.len() >= 3 {
        Version::from_token(toks[2].as_str())
    } else {
        Version::Uninitialized
    };
    (method, Resource::Path(resource), version)
}

/// Split a header line at its first colon into a key and an untrimmed
/// value; a line with no colon is all key and an empty value.
pub fn process_header_line(s: &str) -> (r: (String, String))
    ensures
        r.0@ == header_key(s@),
        r.1@ == header_val(s@),
{
    proof {
        lemma_first_colon(s@);
    }
    let n: usize = s.unicode_len();
    match find_colon(s) {
        Some(i) => {
            let key = s.substring_char(0, i).to_owned();
            let value = s.substring_char(i + 1, n).to_owned();
            (key, value)
        },
        None => {
            let key = s.substring_char(0, n).to_owned();
            proof {
                assert(s@.subrange(0, n as int) =~= s@);
                assert(header_key(s@) =~= s@);
            }
            (key, String::new())
        },
    }
}

/// Fold one line into the request, by the line's own shape alone.
fn apply_line(req: &mut HttpRequest, line: &str)
    ensures
        final(req)@ == spec_step(old(req)@, line@),
{
    if contains_http(line) {
        let (method, resource, version) = process_req_line(line);
        req.method = method;
        req.resource = resource;
        req.version = version;
    } else if contains_char(line, ':') {
        let (key, value) = process_header_line(line);
        req.headers.insert(key, value);
    } else if line.unicode_len() == 0 {
    } else {
        req.msg_body = line.to_owned();
    }
}

impl HttpRequest {
    /// Decode a complete request text.  Decoding is total: every field a
    /// malformed input leaves undetermined keeps its `Uninitialized` or
    /// empty value, and no input fails.
    pub fn decode(input: String) -> (r: HttpRequest)
        ensures
            r@ == spec_decode(input@),
    {
        let s: &str = input.as_str();
        let n: usize = s.unicode_len();
        let mut req = HttpRequest {
            method: Method::Uninitialized,
            version: Version::Uninitialized,
            resource: Resource::Path(String::new()),
            headers: Headers::new(),
            msg_body: String::new(),
        };
        let mut start: usize = 0;
        let mut i: usize = 0;
        while i < n
            invariant
                n == s@.len(),
                s@ == input@,
                start <= i && i <= n,
                lines_state(s@.subrange(0, start as int)).1 == Seq::<char>::empty(),
                req@ == decode_lines(lines_state(s@.subrange(0, start as int)).0),
                forall|j: int| start <= j < i ==> s@[j] != '\n',
            decreases n - i,
        {
            let c = s.get_char(i);
            if c == '\n' {
                let end: usize = if i > start && s.get_char(i - 1) == '\r' {
                    i - 1
                } else {
                    i
                };
                let line: &str = s.substring_char(start, end);
                proof {
                    let t = s@.subrange(0, start as int);
                    let u = s@.subrange(start as int, i as int);
                    lemma_lines_state_no_newline(t, u);
                    lemma_lines_state_newline(t + u);
                    assert(s@.subrange(0, i as int + 1) =~= (t + u).push('\n'));
                    assert(lines_state(t + u).1 =~= u);
                    if end < i {
                        assert(u.last() == '\r');
                        assert(line@ =~= u.drop_last());
                    } else {
                        assert(u.len() == 0 || u.last() != '\r');
                        assert(line@ =~= u);
                    }
                    assert(line@ == strip_cr(u));
                    lemma_decode_lines_push(lines_state(t).0, strip_cr(u));
                }
                apply_line(&mut req, line);
                start = i + 1;
            }
            i += 1;
        }
        if start < n {
            let line: &str = s.substring_char(start, n);
            proof {
                let t = s@.subrange(0, start as int);
                let u = s@.subrange(start as int, n as int);
                lemma_lines_state_no_newline(t, u);
                assert(t + u =~= s@);
                assert(lines_state(s@).1 =~= u);
                lemma_decode_lines_push(lines_state(t).0, u);
            }
            apply_line(&mut req, line);
        } else {
            proof {
                assert(s@.subrange(0, start as int) =~= s@);
            }
        }
        req
    }
}

} // verus!

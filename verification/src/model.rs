//! The mathematical model of request decoding.
//!
//! A request text is a `Seq<char>`.  [`spec_lines`] splits it into lines
//! (at `\n`, with a `\r` before the `\n` stripped), [`spec_step`]
//! classifies one line and folds it into a [`ReqModel`], and
//! [`spec_decode`] is the whole decoder: the left fold of [`spec_step`]
//! over the lines, starting from [`init_model`].

use vstd::prelude::*;

use crate::httprequest::Method;
use crate::httprequest::Version;

verus! {

/// The ghost value of a decoded request: what `HttpRequest` views as.
pub ghost struct ReqModel {
    pub method: Method,
    pub version: Version,
    pub resource: Seq<char>,
    pub headers: Map<Seq<char>, Seq<char>>,
    pub body: Seq<char>,
}

/// The method a token decodes to: exactly `"GET"` and `"POST"` are
/// recognized, case-sensitively; everything else is `Uninitialized`.
pub open spec fn spec_method(s: Seq<char>) -> Method {
    if s == "GET"@ {
        Method::Get
    } else if s == "POST"@ {
        Method::Post
    } else {
        Method::Uninitialized
    }
}

/// The version a token decodes to: exactly `"HTTP/1.1"` is recognized;
/// everything else (including `"HTTP/2.0"`) is `Uninitialized`.
pub open spec fn spec_version(s: Seq<char>) -> Version {
    if s == "HTTP/1.1"@ {
        Version::V1_1
    } else {
        Version::Uninitialized
    }
}

/// A line is treated as a request line exactly when it contains the
/// substring `"HTTP"`, wherever that substring stands.
pub open spec fn is_request_line(l: Seq<char>) -> bool {
    exists|i: int| 0 <= i && i + 4 <= l.len() && #[trigger] l.subrange(i, i + 4) == "HTTP"@
}

/// A line is treated as a header line when it is not a request line and
/// contains a colon.
pub open spec fn is_header_line(l: Seq<char>) -> bool {
    !is_request_line(l) && l.contains(':')
}

/// A line is treated as body when it is not a request line, holds no
/// colon, and is not empty.
pub open spec fn is_body_line(l: Seq<char>) -> bool {
    !is_request_line(l) && !l.contains(':') && l.len() > 0
}

/// The whitespace that separates the request-line tokens: the Unicode
/// white-space characters, as `char::is_whitespace` accepts them.
pub open spec fn is_space(c: char) -> bool {
    ||| c == ' '
    ||| c == '\t'
    ||| c == '\n'
    ||| c == '\u{000B}'
    ||| c == '\u{000C}'
    ||| c == '\r'
    ||| c == '\u{0085}'
    ||| c == '\u{00A0}'
    ||| c == '\u{1680}'
    ||| c == '\u{2000}'
    ||| c == '\u{2001}'
    ||| c == '\u{2002}'
    ||| c == '\u{2003}'
    ||| c == '\u{2004}'
    ||| c == '\u{2005}'
    ||| c == '\u{2006}'
    ||| c == '\u{2007}'
    ||| c == '\u{2008}'
    ||| c == '\u{2009}'
    ||| c == '\u{200A}'
    ||| c == '\u{2028}'
    ||| c == '\u{2029}'
    ||| c == '\u{202F}'
    ||| c == '\u{205F}'
    ||| c == '\u{3000}'
}

/// Folding a text into whitespace-separated tokens, left to right:
/// the tokens completed so far and the token still being read.
pub open spec fn tok_state(s: Seq<char>) -> (Seq<Seq<char>>, Seq<char>)
    decreases s.len(),
{
    if s.len() == 0 {
        (Seq::<Seq<char>>::empty(), Seq::<char>::empty())
    } else {
        let r = tok_state(s.drop_last());
        if is_space(s.last()) {
            if r.1.len() == 0 {
                r
            } else {
                (r.0.push(r.1), Seq::<char>::empty())
            }
        } else {
            (r.0, r.1.push(s.last()))
        }
    }
}

/// The whitespace-separated tokens of a text.
pub open spec fn tokens(s: Seq<char>) -> Seq<Seq<char>> {
    let r = tok_state(s);
    if r.1.len() == 0 {
        r.0
    } else {
        r.0.push(r.1)
    }
}

/// The method field a request line decodes to: its first token, or
/// `Uninitialized` when the line has no token.
pub open spec fn req_method(l: Seq<char>) -> Method {
    if tokens(l).len() >= 1 {
        spec_method(tokens(l)[0])
    } else {
        Method::Uninitialized
    }
}

/// The resource field a request line decodes to: its second token
/// verbatim, or empty when the line has fewer than two tokens.
pub open spec fn req_resource(l: Seq<char>) -> Seq<char> {
    if tokens(l).len() >= 2 {
        tokens(l)[1]
    } else {
        Seq::<char>::empty()
    }
}

/// The version field a request line decodes to: its third token, or
/// `Uninitialized` when the line has fewer than three tokens.
pub open spec fn req_version(l: Seq<char>) -> Version {
    if tokens(l).len() >= 3 {
        spec_version(tokens(l)[2])
    } else {
        Version::Uninitialized
    }
}

/// The position of the first colon in `l`, or `l.len()` when `l` holds
/// none.
pub open spec fn first_colon(l: Seq<char>) -> int
    decreases l.len(),
{
    if l.len() == 0 {
        0
    } else if l[0] == ':' {
        0
    } else {
        1 + first_colon(l.drop_first())
    }
}

/// What [`first_colon`] points at: the first colon of the line, and
/// nothing but non-colons before it.  This is the "split at the first
/// colon only" law of the header split.
pub proof fn lemma_first_colon(l: Seq<char>)
    ensures
        0 <= first_colon(l) <= l.len(),
        first_colon(l) < l.len() ==> l[first_colon(l)] == ':',
        forall|j: int| 0 <= j < first_colon(l) ==> l[j] != ':',
        first_colon(l) < l.len() <==> l.contains(':'),
    decreases l.len(),
{
    if l.len() == 0 {
    } else if l[0] == ':' {
        assert(l.contains(':'));
    } else {
        let t = l.drop_first();
        lemma_first_colon(t);
        assert(forall|j: int| 0 <= j < t.len() ==> t[j] == l[j + 1]);
        assert forall|j: int| 0 <= j < first_colon(l) implies l[j] != ':' by {
            if j >= 1 {
                assert(t[j - 1] != ':');
            }
        }
        if l.contains(':') {
            let j = choose|j: int| 0 <= j < l.len() && l[j] == ':';
            assert(t[j - 1] == ':');
            assert(t.contains(':'));
        }
        if t.contains(':') {
            let j = choose|j: int| 0 <= j < t.len() && t[j] == ':';
            assert(l[j + 1] == ':');
            assert(l.contains(':'));
        }
    }
}

/// The key of a header line: everything before the first colon (the
/// whole line when there is none).
pub open spec fn header_key(l: Seq<char>) -> Seq<char> {
    l.subrange(0, first_colon(l))
}

/// The value of a header line: everything after the first colon,
/// untrimmed (empty when there is no colon).
pub open spec fn header_val(l: Seq<char>) -> Seq<char> {
    if first_colon(l) < l.len() {
        l.subrange(first_colon(l) + 1, l.len() as int)
    } else {
        Seq::<char>::empty()
    }
}

/// A trailing carriage return stripped, as before a line feed.
pub open spec fn strip_cr(l: Seq<char>) -> Seq<char> {
    if l.len() > 0 && l.last() == '\r' {
        l.drop_last()
    } else {
        l
    }
}

/// Folding a text into lines, left to right: the lines completed so far
/// and the partial line after the last line feed.  A line ends at `\n`,
/// with a `\r` right before it stripped.
pub open spec fn lines_state(s: Seq<char>) -> (Seq<Seq<char>>, Seq<char>)
    decreases s.len(),
{
    if s.len() == 0 {
        (Seq::<Seq<char>>::empty(), Seq::<char>::empty())
    } else {
        let r = lines_state(s.drop_last());
        if s.last() == '\n' {
            (r.0.push(strip_cr(r.1)), Seq::<char>::empty())
        } else {
            (r.0, r.1.push(s.last()))
        }
    }
}

/// The lines of a text: terminator sequences `\r\n` and `\n` both end a
/// line, and a final line needs no terminator.
pub open spec fn spec_lines(s: Seq<char>) -> Seq<Seq<char>> {
    let r = lines_state(s);
    if r.1.len() == 0 {
        r.0
    } else {
        r.0.push(r.1)
    }
}

/// The request before any line was decoded: everything `Uninitialized`
/// or empty.
pub open spec fn init_model() -> ReqModel {
    ReqModel {
        method: Method::Uninitialized,
        version: Version::Uninitialized,
        resource: Seq::<char>::empty(),
        headers: Map::<Seq<char>, Seq<char>>::empty(),
        body: Seq::<char>::empty(),
    }
}

/// One line folded into the request, by the line's own shape alone: a
/// request line sets method, resource and version; otherwise a line with
/// a colon upserts a header; otherwise an empty line is ignored;
/// otherwise the line replaces the body.
pub open spec fn spec_step(m: ReqModel, l: Seq<char>) -> ReqModel {
    if is_request_line(l) {
        ReqModel { method: req_method(l), resource: req_resource(l), version: req_version(l), ..m }
    } else if l.contains(':') {
        ReqModel { headers: m.headers.insert(header_key(l), header_val(l)), ..m }
    } else if l.len() == 0 {
        m
    } else {
        ReqModel { body: l, ..m }
    }
}

/// A sequence of lines folded into a request, left to right.
pub open spec fn decode_lines(ls: Seq<Seq<char>>) -> ReqModel
    decreases ls.len(),
{
    if ls.len() == 0 {
        init_model()
    } else {
        spec_step(decode_lines(ls.drop_last()), ls.last())
    }
}

/// The whole decoder: split the text into lines and fold them.
pub open spec fn spec_decode(s: Seq<char>) -> ReqModel {
    decode_lines(spec_lines(s))
}

/// Extending a text by characters among which no line feed stands
/// lengthens the partial line and completes no line.
pub proof fn lemma_lines_state_no_newline(t: Seq<char>, u: Seq<char>)
    requires
        forall|j: int| 0 <= j < u.len() ==> u[j] != '\n',
    ensures
        lines_state(t + u).0 == lines_state(t).0,
        lines_state(t + u).1 == lines_state(t).1 + u,
    decreases u.len(),
{
    if u.len() == 0 {
        assert(t + u =~= t);
        assert(lines_state(t).1 + u =~= lines_state(t).1);
    } else {
        let v = u.drop_last();
        assert(forall|j: int| 0 <= j < v.len() ==> v[j] == u[j]);
        lemma_lines_state_no_newline(t, v);
        assert((t + u).drop_last() =~= t + v);
        assert(u[u.len() - 1] != '\n');
        assert((t + u).last() == u.last());
        assert(lines_state(t).1 + u =~= (lines_state(t).1 + v).push(u.last()));
    }
}

/// A line feed completes the partial line, with a carriage return right
/// before it stripped.
pub proof fn lemma_lines_state_newline(t: Seq<char>)
    ensures
        lines_state(t.push('\n')).0 == lines_state(t).0.push(strip_cr(lines_state(t).1)),
        lines_state(t.push('\n')).1 == Seq::<char>::empty(),
{
    assert(t.push('\n').drop_last() =~= t);
    assert(t.push('\n').last() == '\n');
}

/// Folding one more line is one more step.
pub proof fn lemma_decode_lines_push(ls: Seq<Seq<char>>, l: Seq<char>)
    ensures
        decode_lines(ls.push(l)) == spec_step(decode_lines(ls), l),
{
    assert(ls.push(l).drop_last() =~= ls);
    assert(ls.push(l).last() == l);
}

/// Exactly the token `"GET"` decodes to `Get` and exactly `"POST"` to
/// `Post`, case-sensitively; every other token, the empty one included,
/// decodes to `Uninitialized`.
pub proof fn lemma_method_exact(s: Seq<char>)
    ensures
        spec_method(s) == Method::Get <==> s == "GET"@,
        spec_method(s) == Method::Post <==> s == "POST"@,
        spec_method(s) == Method::Uninitialized <==> (s != "GET"@ && s != "POST"@),
{
    reveal_strlit("GET");
    reveal_strlit("POST");
    assert("GET"@.len() != "POST"@.len());
}

/// Exactly the token `"HTTP/1.1"` decodes to `V1_1`; every other token,
/// `"HTTP/2.0"` and the empty one included, decodes to `Uninitialized`,
/// and no token decodes to `V2_0`.
pub proof fn lemma_version_exact(s: Seq<char>)
    ensures
        spec_version(s) == Version::V1_1 <==> s == "HTTP/1.1"@,
        spec_version(s) == Version::Uninitialized <==> s != "HTTP/1.1"@,
        spec_version(s) != Version::V2_0,
{
}

/// Empty input decodes to the fully uninitialized request.
pub proof fn lemma_decode_empty()
    ensures
        spec_decode(Seq::<char>::empty()) == init_model(),
{
}

/// Of several header lines with one key, the last decides the stored
/// value: a later occurrence overwrites an earlier one.
pub proof fn lemma_last_header_wins(ls: Seq<Seq<char>>, i: int)
    requires
        0 <= i < ls.len(),
        is_header_line(ls[i]),
        forall|j: int|
            i < j < ls.len() && is_header_line(#[trigger] ls[j]) ==> header_key(ls[j])
                != header_key(ls[i]),
    ensures
        decode_lines(ls).headers.contains_key(header_key(ls[i])),
        decode_lines(ls).headers[header_key(ls[i])] == header_val(ls[i]),
    decreases ls.len(),
{
    let l = ls.last();
    let prev = ls.drop_last();
    if i == ls.len() - 1 {
        assert(!is_request_line(l) && l.contains(':'));
    } else {
        assert(forall|j: int| 0 <= j < prev.len() ==> prev[j] == ls[j]);
        lemma_last_header_wins(prev, i);
        if is_header_line(l) {
            assert(header_key(ls[ls.len() - 1]) != header_key(ls[i]));
        }
    }
}

/// Of several body lines, only the last is retained.
pub proof fn lemma_last_body_line(ls: Seq<Seq<char>>, i: int)
    requires
        0 <= i < ls.len(),
        is_body_line(ls[i]),
        forall|j: int| i < j < ls.len() ==> !is_body_line(#[trigger] ls[j]),
    ensures
        decode_lines(ls).body == ls[i],
    decreases ls.len(),
{
    let l = ls.last();
    let prev = ls.drop_last();
    if i == ls.len() - 1 {
        assert(!is_request_line(l) && !l.contains(':') && l.len() > 0);
    } else {
        assert(forall|j: int| 0 <= j < prev.len() ==> prev[j] == ls[j]);
        lemma_last_body_line(prev, i);
        assert(!is_body_line(ls[ls.len() - 1]));
    }
}

/// A text with no body line decodes to an empty body.
pub proof fn lemma_no_body_line(ls: Seq<Seq<char>>)
    requires
        forall|j: int| 0 <= j < ls.len() ==> !is_body_line(#[trigger] ls[j]),
    ensures
        decode_lines(ls).body == Seq::<char>::empty(),
    decreases ls.len(),
{
    if ls.len() > 0 {
        let prev = ls.drop_last();
        assert(forall|j: int| 0 <= j < prev.len() ==> prev[j] == ls[j]);
        lemma_no_body_line(prev);
        assert(!is_body_line(ls[ls.len() - 1]));
    }
}

} // verus!

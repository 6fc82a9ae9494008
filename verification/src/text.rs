//! Verified helpers over string slices: equality, character search, and
//! substring search.  Everything here is executable code proved against
//! the sequence-of-characters view of `str`.

use vstd::prelude::*;
use vstd::string::StrSliceExecFns;

use crate::model::first_colon;
use crate::model::is_request_line;
use crate::model::is_space;
use crate::model::lemma_first_colon;
use crate::model::tok_state;
use crate::model::tokens;

verus! {

/// Character-by-character equality of two string slices.
pub fn str_eq(a: &str, b: &str) -> (r: bool)
    ensures
        r == (a@ == b@),
{
    let na: usize = a.unicode_len();
    let nb: usize = b.unicode_len();
    if na != nb {
        return false;
    }
    let mut i: usize = 0;
    while i < na
        invariant
            na == a@.len(),
            na == b@.len(),
            i <= na,
            forall|j: int| 0 <= j < i ==> a@[j] == b@[j],
        decreases na - i,
    {
        if a.get_char(i) != b.get_char(i) {
            return false;
        }
        i += 1;
    }
    proof {
        assert(a@ =~= b@);
    }
    true
}

/// Whether the character `c` occurs anywhere in `s`.
pub fn contains_char(s: &str, c: char) -> (r: bool)
    ensures
        r == s@.contains(c),
{
    let n: usize = s.unicode_len();
    let mut i: usize = 0;
    while i < n
        invariant
            n == s@.len(),
            i <= n,
            forall|j: int| 0 <= j < i ==> s@[j] != c,
        decreases n - i,
    {
        if s.get_char(i) == c {
            return true;
        }
        i += 1;
    }
    false
}

/// Whether `s` contains the substring `"HTTP"`; this is what classifies a
/// line as a request line.
pub fn contains_http(s: &str) -> (r: bool)
    ensures
        r == is_request_line(s@),
{
    proof {
        reveal_strlit("HTTP");
    }
    let n: usize = s.unicode_len();
    if n < 4 {
        proof {
            assert(!is_request_line(s@)) by {
                if is_request_line(s@) {
                    let k = choose|k: int|
                        0 <= k && k + 4 <= s@.len() && #[trigger] s@.subrange(k, k + 4) == "HTTP"@;
                    assert(false);
                }
            }
        }
        return false;
    }
    let mut i: usize = 0;
    while i < n - 3
        invariant
            4 <= n,
            n == s@.len(),
            i <= n - 3,
            forall|k: int| 0 <= k < i ==> #[trigger] s@.subrange(k, k + 4) != "HTTP"@,
        decreases n - i,
    {
        if s.get_char(i) == 'H' && s.get_char(i + 1) == 'T' && s.get_char(i + 2) == 'T'
            && s.get_char(i + 3) == 'P' {
            proof {
                reveal_strlit("HTTP");
                assert(s@.subrange(i as int, i as int + 4) =~= "HTTP"@);
            }
            return true;
        }
        proof {
            reveal_strlit("HTTP");
            if s@.subrange(i as int, i as int + 4) == "HTTP"@ {
                assert(s@[i as int] == s@.subrange(i as int, i as int + 4)[0]);
                assert(s@[i as int + 1] == s@.subrange(i as int, i as int + 4)[1]);
                assert(s@[i as int + 2] == s@.subrange(i as int, i as int + 4)[2]);
                assert(s@[i as int + 3] == s@.subrange(i as int, i as int + 4)[3]);
                assert(false);
            }
        }
        i += 1;
    }
    proof {
        assert(!is_request_line(s@)) by {
            if is_request_line(s@) {
                let k = choose|k: int|
                    0 <= k && k + 4 <= s@.len() && #[trigger] s@.subrange(k, k + 4) == "HTTP"@;
                assert(k < i);
            }
        }
    }
    false
}

/// The position of the first colon in `s`, if it holds one.
pub fn find_colon(s: &str) -> (r: Option<usize>)
    ensures
        match r {
            Some(i) => i as int == first_colon(s@) && (i as int) < s@.len(),
            None => first_colon(s@) == s@.len() && !s@.contains(':'),
        },
{
    let n: usize = s.unicode_len();
    let mut i: usize = 0;
    while i < n
        invariant
            n == s@.len(),
            i <= n,
            forall|j: int| 0 <= j < i ==> s@[j] != ':',
        decreases n - i,
    {
        if s.get_char(i) == ':' {
            proof {
                lemma_first_colon(s@);
                assert(s@.contains(':'));
                if first_colon(s@) < i as int {
                    assert(s@[first_colon(s@)] != ':');
                }
            }
            return Some(i);
        }
        i += 1;
    }
    proof {
        lemma_first_colon(s@);
        if first_colon(s@) < s@.len() {
            assert(s@[first_colon(s@)] != ':');
        }
    }
    None
}

/// Whether `c` separates request-line tokens.
fn space(c: char) -> (r: bool)
    ensures
        r == is_space(c),
{
    c == ' ' || c == '\t' || c == '\n' || c == '\u{000B}' || c == '\u{000C}' || c == '\r'
        || c == '\u{0085}' || c == '\u{00A0}' || c == '\u{1680}' || c == '\u{2000}'
        || c == '\u{2001}' || c == '\u{2002}' || c == '\u{2003}' || c == '\u{2004}'
        || c == '\u{2005}' || c == '\u{2006}' || c == '\u{2007}' || c == '\u{2008}'
        || c == '\u{2009}' || c == '\u{200A}' || c == '\u{2028}' || c == '\u{2029}'
        || c == '\u{202F}' || c == '\u{205F}' || c == '\u{3000}'
}

/// The whitespace-separated tokens of `s`, in order.
pub fn split_tokens(s: &str) -> (ts: Vec<String>)
    ensures
        ts@.map_values(|t: String| t@) == tokens(s@),
{
    let n: usize = s.unicode_len();
    let mut ts: Vec<String> = Vec::new();
    let mut start: usize = 0;
    let mut in_tok: bool = false;
    let mut i: usize = 0;
    while i < n
        invariant
            n == s@.len(),
            i <= n,
            !in_tok ==> tok_state(s@.subrange(0, i as int)) == (
                ts@.map_values(|t: String| t@),
                Seq::<char>::empty(),
            ),
            in_tok ==> start < i && tok_state(s@.subrange(0, i as int)) == (
                ts@.map_values(|t: String| t@),
                s@.subrange(start as int, i as int),
            ),
        decreases n - i,
    {
        let c = s.get_char(i);
        proof {
            assert(s@.subrange(0, i as int + 1).drop_last() =~= s@.subrange(0, i as int));
            assert(s@.subrange(0, i as int + 1).last() == s@[i as int]);
        }
        if space(c) {
            if in_tok {
                let ghost old_ts = ts@;
                let tok: String = s.substring_char(start, i).to_owned();
                ts.push(tok);
                proof {
                    assert(ts@.map_values(|t: String| t@) =~= old_ts.map_values(|t: String| t@)
                        .push(s@.subrange(start as int, i as int)));
                }
                in_tok = false;
            }
        } else {
            if !in_tok {
                start = i;
                in_tok = true;
            }
            proof {
                assert(s@.subrange(start as int, i as int + 1) =~= s@.subrange(
                    start as int,
                    i as int,
                ).push(s@[i as int]));
            }
        }
        i += 1;
    }
    proof {
        assert(s@.subrange(0, n as int) =~= s@);
    }
    if in_tok {
        let ghost old_ts = ts@;
        let tok: String = s.substring_char(start, n).to_owned();
        ts.push(tok);
        proof {
            assert(ts@.map_values(|t: String| t@) =~= old_ts.map_values(|t: String| t@).push(
                s@.subrange(start as int, n as int),
            ));
        }
    }
    ts
}

} // verus!

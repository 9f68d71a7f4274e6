//! The wire-protocol decoder: one HTTP/1.1 request line with its headers,
//! read from the bytes of a listener socket. A prefix that does not yet
//! hold the whole request is reported as such, so the caller can read more.

use vstd::prelude::*;
use crate::errors::StreamError;
use crate::strings::string_push;

verus! {

/// Bytes allowed in a method or header name: printable ASCII without the
/// colon.
pub open spec fn spec_is_token_byte(b: u8) -> bool {
    33 <= b && b <= 126 && b != 58
}

/// Bytes allowed in a request path: printable ASCII.
pub open spec fn spec_is_uri_byte(b: u8) -> bool {
    33 <= b && b <= 126
}

/// Space or horizontal tab.
pub open spec fn spec_is_blank(b: u8) -> bool {
    b == 32 || b == 9
}

/// ASCII bytes read as characters.
pub open spec fn spec_ascii_chars(s: Seq<u8>) -> Seq<char> {
    s.map_values(|b: u8| b as char)
}

/// The first position in `[from, s.len())` holding `b`, or `s.len()`.
pub open spec fn spec_find_byte(s: Seq<u8>, b: u8, from: int) -> int
    decreases s.len() - from when 0 <= from <= s.len()
{
    if from >= s.len() {
        s.len() as int
    } else if s[from] == b {
        from
    } else {
        spec_find_byte(s, b, from + 1)
    }
}

/// The first position in `[from, s.len() - 1)` where a CR LF pair starts,
/// or `s.len()`.
pub open spec fn spec_find_crlf(s: Seq<u8>, from: int) -> int
    decreases s.len() - from when 0 <= from <= s.len()
{
    if from + 1 >= s.len() {
        s.len() as int
    } else if s[from] == 13 && s[from + 1] == 10 {
        from
    } else {
        spec_find_crlf(s, from + 1)
    }
}

/// The first position in `[from, to)` holding something besides space and
/// tab, or `to`.
pub open spec fn spec_skip_blanks(s: Seq<u8>, from: int, to: int) -> int
    decreases to - from when 0 <= from && from <= to <= s.len()
{
    if from >= to {
        to
    } else if spec_is_blank(s[from]) {
        spec_skip_blanks(s, from + 1, to)
    } else {
        from
    }
}

/// The position just past the last non-blank in `[from, to)`, or `from`.
pub open spec fn spec_rskip_blanks(s: Seq<u8>, from: int, to: int) -> int
    decreases to - from when 0 <= from && from <= to <= s.len()
{
    if to <= from {
        from
    } else if spec_is_blank(s[to - 1]) {
        spec_rskip_blanks(s, from, to - 1)
    } else {
        to
    }
}

/// The request line split at its two spaces: method, path, and version,
/// each checked against its byte set; `None` when the line is malformed.
pub open spec fn spec_parse_request_line(line: Seq<u8>) -> Option<(Seq<u8>, Seq<u8>, Seq<u8>)> {
    let sp1 = spec_find_byte(line, 32, 0);
    if sp1 == line.len() {
        None
    } else {
        let sp2 = spec_find_byte(line, 32, sp1 + 1);
        if sp2 == line.len() {
            None
        } else {
            let method = line.take(sp1);
            let path = line.subrange(sp1 + 1, sp2);
            let version = line.skip(sp2 + 1);
            if method.len() > 0 && path.len() > 0 && (forall|i: int|
                0 <= i < method.len() ==> spec_is_token_byte(#[trigger] method[i])) && (forall|
                i: int,
            |
                0 <= i < path.len() ==> spec_is_uri_byte(#[trigger] path[i])) {
                Some((method, path, version))
            } else {
                None
            }
        }
    }
}

/// What parsing the header region yields.
pub enum SpecHeaders {
    /// The bytes end before the blank line; more input is needed.
    Partial,
    /// A line that is not a well-formed header.
    Malformed,
    /// The headers, in order, and the position just past the blank line.
    Done(Seq<(Seq<u8>, Seq<u8>)>, int),
}

/// Parses header lines from `from` until the blank line: each line is a
/// token name, a colon, optional blanks, and the raw value bytes up to the
/// line end.
pub open spec fn spec_parse_headers(s: Seq<u8>, from: int) -> SpecHeaders
    decreases s.len() - from when 0 <= from <= s.len() via spec_parse_headers_decreases
{
    let e = spec_find_crlf(s, from);
    if e == s.len() {
        SpecHeaders::Partial
    } else if e == from {
        SpecHeaders::Done(Seq::empty(), from + 2)
    } else {
        let colon = spec_find_byte(s, 58, from);
        if colon >= e {
            SpecHeaders::Malformed
        } else {
            let name = s.subrange(from, colon);
            if name.len() == 0 || exists|i: int|
                0 <= i < name.len() && !spec_is_token_byte(#[trigger] name[i]) {
                SpecHeaders::Malformed
            } else {
                let v0 = spec_skip_blanks(s, colon + 1, e);
                let v1 = spec_rskip_blanks(s, v0, e);
                let value = s.subrange(v0, v1);
                match spec_parse_headers(s, e + 2) {
                    SpecHeaders::Partial => SpecHeaders::Partial,
                    SpecHeaders::Malformed => SpecHeaders::Malformed,
                    SpecHeaders::Done(rest, amt) => SpecHeaders::Done(
                        seq![(name, value)] + rest,
                        amt,
                    ),
                }
            }
        }
    }
}

#[via_fn]
proof fn spec_parse_headers_decreases(s: Seq<u8>, from: int) {
    lemma_find_crlf(s, from);
    lemma_find_byte(s, 58, from);
}

/// What decoding a byte prefix yields.
pub enum SpecDecode {
    /// The bytes do not yet hold the whole request.
    Partial,
    /// The bytes can never become a well-formed request.
    Malformed,
    /// A well-formed request of another HTTP version.
    WrongVersion,
    /// Method and path characters, the headers, and how many bytes the
    /// request occupied.
    Request(Seq<char>, Seq<char>, Seq<(Seq<u8>, Seq<u8>)>, int),
}

/// The decoded request: the request line, then the headers, then a blank
/// line; only version `HTTP/1.1` is served.
pub open spec fn spec_decode(s: Seq<u8>) -> SpecDecode {
    let e0 = spec_find_crlf(s, 0);
    if e0 == s.len() {
        SpecDecode::Partial
    } else {
        match spec_parse_request_line(s.take(e0)) {
            None => SpecDecode::Malformed,
            Some((method, path, version)) => {
                if version == "HTTP/1.1"@.map_values(|c: char| c as u8) {
                    match spec_parse_headers(s, e0 + 2) {
                        SpecHeaders::Partial => SpecDecode::Partial,
                        SpecHeaders::Malformed => SpecDecode::Malformed,
                        SpecHeaders::Done(headers, amt) => SpecDecode::Request(
                            spec_ascii_chars(method),
                            spec_ascii_chars(path),
                            headers,
                            amt,
                        ),
                    }
                } else if version == "HTTP/1.0"@.map_values(|c: char| c as u8) {
                    SpecDecode::WrongVersion
                } else {
                    SpecDecode::Malformed
                }
            },
        }
    }
}

/// One decoded request: the method, the path, and the headers with their
/// raw value bytes.
#[derive(Debug)]
pub struct HttpRequest {
    pub method: String,
    pub path: String,
    pub headers: Vec<(String, Vec<u8>)>,
}

/// The two error details are different strings.
proof fn lemma_distinct_details()
    ensures
        "failed to parse http request"@ != "only HTTP/1.1 accepted"@,
{
    reveal_strlit("failed to parse http request");
    reveal_strlit("only HTTP/1.1 accepted");
    assert("failed to parse http request"@.len() != "only HTTP/1.1 accepted"@.len());
}

/// Where `spec_find_byte` points: the first `b` at or after `from`.
pub proof fn lemma_find_byte(s: Seq<u8>, b: u8, from: int)
    requires
        0 <= from <= s.len(),
    ensures
        from <= spec_find_byte(s, b, from) <= s.len(),
        spec_find_byte(s, b, from) < s.len() ==> s[spec_find_byte(s, b, from)] == b,
        forall|k: int| from <= k < spec_find_byte(s, b, from) ==> s[k] != b,
    decreases s.len() - from,
{
    if from < s.len() && s[from] != b {
        lemma_find_byte(s, b, from + 1);
    }
}

/// Where `spec_find_crlf` points: the first CR LF pair at or after `from`.
pub proof fn lemma_find_crlf(s: Seq<u8>, from: int)
    requires
        0 <= from <= s.len(),
    ensures
        from <= spec_find_crlf(s, from),
        spec_find_crlf(s, from) < s.len() ==> spec_find_crlf(s, from) + 1 < s.len() && s[spec_find_crlf(s, from)] == 13 && s[spec_find_crlf(s, from) + 1] == 10,
        spec_find_crlf(s, from) <= s.len(),
        forall|k: int|
            from <= k < spec_find_crlf(s, from) && k + 1 < s.len() ==> !(#[trigger] s[k] == 13
                && s[k + 1] == 10),
    decreases s.len() - from,
{
    if from + 1 < s.len() && !(s[from] == 13 && s[from + 1] == 10) {
        lemma_find_crlf(s, from + 1);
    }
}

/// Where `spec_skip_blanks` points: the first non-blank in `[from, to)`.
pub proof fn lemma_skip_blanks(s: Seq<u8>, from: int, to: int)
    requires
        0 <= from <= to <= s.len(),
    ensures
        from <= spec_skip_blanks(s, from, to) <= to,
        spec_skip_blanks(s, from, to) < to ==> !spec_is_blank(s[spec_skip_blanks(s, from, to)]),
        forall|k: int| from <= k < spec_skip_blanks(s, from, to) ==> spec_is_blank(s[k]),
    decreases to - from,
{
    if from < to && spec_is_blank(s[from]) {
        lemma_skip_blanks(s, from + 1, to);
    }
}

/// Where `spec_rskip_blanks` points: past the last non-blank in `[from, to)`.
pub proof fn lemma_rskip_blanks(s: Seq<u8>, from: int, to: int)
    requires
        0 <= from <= to <= s.len(),
    ensures
        from <= spec_rskip_blanks(s, from, to) <= to,
        spec_rskip_blanks(s, from, to) > from ==> !spec_is_blank(
            s[spec_rskip_blanks(s, from, to) - 1],
        ),
        forall|k: int| spec_rskip_blanks(s, from, to) <= k < to ==> spec_is_blank(s[k]),
    decreases to - from,
{
    if to > from && spec_is_blank(s[to - 1]) {
        lemma_rskip_blanks(s, from, to - 1);
    }
}

/// Finds the first `b` in `src` at or after `from`.
fn find_byte(src: &Vec<u8>, b: u8, from: usize) -> (r: usize)
    requires
        from <= src@.len(),
    ensures
        r == spec_find_byte(src@, b, from as int),
        from <= r <= src@.len(),
        r < src@.len() ==> src@[r as int] == b,
{
    let n = src.len();
    let mut i = from;
    while i < n
        invariant
            from <= i <= n,
            n == src@.len(),
            forall|k: int| from <= k < i ==> src@[k] != b,
        decreases n - i,
    {
        if src[i] == b {
            proof {
                lemma_find_byte(src@, b, from as int);
                let j = spec_find_byte(src@, b, from as int);
                if j < i {
                    assert(src@[j] != b);
                }
                if j > i {
                    assert(src@[i as int] != b);
                }
            }
            return i;
        }
        i = i + 1;
    }
    proof {
        lemma_find_byte(src@, b, from as int);
        let j = spec_find_byte(src@, b, from as int);
        if j < n {
            assert(src@[j] != b);
        }
    }
    n
}

/// Finds the first CR LF pair in `src` at or after `from`.
fn find_crlf(src: &Vec<u8>, from: usize) -> (r: usize)
    requires
        from <= src@.len(),
    ensures
        r == spec_find_crlf(src@, from as int),
        from <= r <= src@.len(),
        r < src@.len() ==> r + 1 < src@.len() && src@[r as int] == 13 && src@[r as int + 1] == 10,
{
    let n = src.len();
    let mut i = from;
    while i < n && i + 1 < n
        invariant
            from <= i,
            i <= n,
            n == src@.len(),
            forall|k: int| from <= k < i ==> !(#[trigger] src@[k] == 13 && src@[k + 1] == 10),
        decreases n - i,
    {
        if src[i] == 13 && src[i + 1] == 10 {
            proof {
                lemma_find_crlf(src@, from as int);
                let j = spec_find_crlf(src@, from as int);
                if j < i {
                    assert(!(src@[j] == 13 && src@[j + 1] == 10));
                }
                if j > i {
                    assert(!(src@[i as int] == 13 && src@[i as int + 1] == 10));
                }
            }
            return i;
        }
        i = i + 1;
    }
    proof {
        lemma_find_crlf(src@, from as int);
        let j = spec_find_crlf(src@, from as int);
        if j < n {
            assert(!(src@[j] == 13 && src@[j + 1] == 10));
        }
    }
    n
}

/// Skips spaces and tabs in `src[from..to]`.
fn skip_blanks(src: &Vec<u8>, from: usize, to: usize) -> (r: usize)
    requires
        from <= to <= src@.len(),
    ensures
        r == spec_skip_blanks(src@, from as int, to as int),
        from <= r <= to,
{
    let mut i = from;
    while i < to
        invariant
            from <= i <= to <= src@.len(),
            forall|k: int| from <= k < i ==> spec_is_blank(src@[k]),
        decreases to - i,
    {
        let c = src[i];
        if c != 32 && c != 9 {
            proof {
                lemma_skip_blanks(src@, from as int, to as int);
                let j = spec_skip_blanks(src@, from as int, to as int);
                if j < i {
                    assert(spec_is_blank(src@[j]));
                }
                if j > i {
                    assert(spec_is_blank(src@[i as int]));
                }
            }
            return i;
        }
        i = i + 1;
    }
    proof {
        lemma_skip_blanks(src@, from as int, to as int);
        let j = spec_skip_blanks(src@, from as int, to as int);
        if j < to {
            assert(spec_is_blank(src@[j]));
        }
    }
    to
}

/// Skips trailing spaces and tabs in `src[from..to]`.
fn rskip_blanks(src: &Vec<u8>, from: usize, to: usize) -> (r: usize)
    requires
        from <= to <= src@.len(),
    ensures
        r == spec_rskip_blanks(src@, from as int, to as int),
        from <= r <= to,
{
    let mut i = to;
    while i > from
        invariant
            from <= i <= to <= src@.len(),
            forall|k: int| i <= k < to ==> spec_is_blank(src@[k]),
        decreases i,
    {
        let c = src[i - 1];
        if c != 32 && c != 9 {
            proof {
                lemma_rskip_blanks(src@, from as int, to as int);
                let j = spec_rskip_blanks(src@, from as int, to as int);
                if j < i {
                    assert(spec_is_blank(src@[i - 1]));
                }
                if j > i {
                    assert(!spec_is_blank(src@[j - 1]));
                    assert(spec_is_blank(src@[j - 1]));
                }
            }
            return i;
        }
        i = i - 1;
    }
    proof {
        lemma_rskip_blanks(src@, from as int, to as int);
        let j = spec_rskip_blanks(src@, from as int, to as int);
        if j > from {
            assert(spec_is_blank(src@[j - 1]));
        }
    }
    from
}

/// Whether every byte of `src[from..to]` belongs to the set: token bytes
/// when `token` is set, else path bytes.
fn all_in_set(src: &Vec<u8>, from: usize, to: usize, token: bool) -> (r: bool)
    requires
        from <= to <= src@.len(),
    ensures
        token ==> r == (forall|k: int| from <= k < to ==> spec_is_token_byte(#[trigger] src@[k])),
        !token ==> r == (forall|k: int| from <= k < to ==> spec_is_uri_byte(#[trigger] src@[k])),
{
    let mut i = from;
    while i < to
        invariant
            from <= i <= to <= src@.len(),
            token ==> forall|k: int| from <= k < i ==> spec_is_token_byte(#[trigger] src@[k]),
            !token ==> forall|k: int| from <= k < i ==> spec_is_uri_byte(#[trigger] src@[k]),
        decreases to - i,
    {
        let c = src[i];
        let ok = if token {
            33 <= c && c <= 126 && c != 58
        } else {
            33 <= c && c <= 126
        };
        if !ok {
            return false;
        }
        i = i + 1;
    }
    true
}

/// Reads `src[from..to]`, which must be ASCII, as a string.
fn ascii_string(src: &Vec<u8>, from: usize, to: usize) -> (r: String)
    requires
        from <= to <= src@.len(),
        forall|k: int| from <= k < to ==> #[trigger] src@[k] < 128,
    ensures
        r@ == spec_ascii_chars(src@.subrange(from as int, to as int)),
{
    let mut out = String::new();
    let mut i = from;
    while i < to
        invariant
            from <= i <= to <= src@.len(),
            forall|k: int| from <= k < to ==> #[trigger] src@[k] < 128,
            out@ == spec_ascii_chars(src@.subrange(from as int, i as int)),
        decreases to - i,
    {
        let c = src[i] as char;
        string_push(&mut out, c);
        proof {
            assert(spec_ascii_chars(src@.subrange(from as int, i + 1)) =~= spec_ascii_chars(
                src@.subrange(from as int, i as int),
            ).push(src@[i as int] as char));
        }
        i = i + 1;
    }
    out
}

/// Copies `src[from..to]` into a fresh vector.
fn byte_range(src: &Vec<u8>, from: usize, to: usize) -> (r: Vec<u8>)
    requires
        from <= to <= src@.len(),
    ensures
        r@ == src@.subrange(from as int, to as int),
{
    let mut out: Vec<u8> = Vec::new();
    let mut i = from;
    while i < to
        invariant
            from <= i <= to <= src@.len(),
            out@ =~= src@.subrange(from as int, i as int),
        decreases to - i,
    {
        out.push(src[i]);
        proof {
            assert(src@.subrange(from as int, i + 1) =~= src@.subrange(from as int, i as int).push(
                src@[i as int],
            ));
        }
        i = i + 1;
    }
    out
}

/// Decodes one request from the bytes read so far. Too short a prefix is
/// `Ok(None)`; a well-formed `HTTP/1.1` request comes back with the number
/// of bytes it occupied; any other version, and any malformed line, is an
/// error.
pub fn decode(src: &Vec<u8>) -> (r: Result<Option<(HttpRequest, usize)>, StreamError>)
    ensures
        match r {
            Ok(None) => spec_decode(src@) is Partial,
            Ok(Some((req, amt))) => (match spec_decode(src@) {
                SpecDecode::Request(m, p, hs, a) => {
                    &&& req.method@ == m
                    &&& req.path@ == p
                    &&& amt == a
                    &&& req.headers@.len() == hs.len()
                    &&& forall|i: int|
                        0 <= i < hs.len() ==> spec_ascii_chars(hs[i].0) == (
                        #[trigger] req.headers@[i]).0@ && hs[i].1 == req.headers@[i].1@
                },
                _ => false,
            }),
            Err(e) => ({
                &&& e is IoError
                &&& spec_decode(src@) is Malformed || spec_decode(src@) is WrongVersion
                &&& spec_decode(src@) is WrongVersion <==> e.spec_detail() == "only HTTP/1.1 accepted"@
            }),
        },
{
    let e0 = find_crlf(src, 0);
    let n = src.len();
    if e0 == n {
        return Ok(None);
    }
    // request line
    let sp1 = find_byte(src, 32, 0);
    let sp2 = if sp1 < e0 {
        find_byte(src, 32, sp1 + 1)
    } else {
        e0
    };
    let ghost line = src@.take(e0 as int);
    proof {
        lemma_find_crlf(src@, 0);
        lemma_find_byte(src@, 32, 0);
        assert(forall|k: int| 0 <= k < line.len() ==> line[k] == src@[k]);
        assert(spec_find_byte(line, 32, 0) == if sp1 < e0 {
            sp1 as int
        } else {
            line.len() as int
        }) by {
            lemma_find_byte(line, 32, 0);
            let j = spec_find_byte(line, 32, 0);
            if sp1 < e0 {
                if j < sp1 {
                    assert(src@[j] != 32);
                }
                if j > sp1 {
                    assert(line[sp1 as int] != 32);
                }
            } else {
                if j < line.len() {
                    assert(src@[j] != 32);
                }
            }
        }
    }
    if sp1 >= e0 {
        proof {
            lemma_distinct_details();
        }
        return Err(StreamError::IoError("failed to parse http request".to_owned()));
    }
    proof {
        lemma_find_byte(src@, 32, sp1 as int + 1);
        assert(spec_find_byte(line, 32, sp1 as int + 1) == if sp2 < e0 {
            sp2 as int
        } else {
            line.len() as int
        }) by {
            lemma_find_byte(line, 32, sp1 as int + 1);
            let j = spec_find_byte(line, 32, sp1 as int + 1);
            if sp2 < e0 {
                if j < sp2 {
                    assert(src@[j] != 32);
                }
                if j > sp2 {
                    assert(line[sp2 as int] != 32);
                }
            } else {
                if j < line.len() {
                    assert(src@[j] != 32);
                }
            }
        }
    }
    if sp2 >= e0 {
        proof {
            lemma_distinct_details();
        }
        return Err(StreamError::IoError("failed to parse http request".to_owned()));
    }
    let method_ok = sp1 > 0 && all_in_set(src, 0, sp1, true);
    let path_ok = sp2 > sp1 + 1 && all_in_set(src, sp1 + 1, sp2, false);
    proof {
        assert(line.take(sp1 as int) =~= src@.subrange(0, sp1 as int));
        assert(line.subrange(sp1 as int + 1, sp2 as int) =~= src@.subrange(
            sp1 as int + 1,
            sp2 as int,
        ));
        assert(line.skip(sp2 as int + 1) =~= src@.subrange(sp2 as int + 1, e0 as int));
    }
    if !method_ok || !path_ok {
        proof {
            lemma_distinct_details();
            let m = line.take(sp1 as int);
            let p = line.subrange(sp1 as int + 1, sp2 as int);
            if !method_ok {
                if sp1 > 0 {
                    let k = choose|k: int| 0 <= k < sp1 && !spec_is_token_byte(#[trigger] src@[k]);
                    assert(m[k] == src@[k]);
                    assert(!spec_is_token_byte(m[k]));
                }
            } else {
                if sp2 > sp1 + 1 {
                    let k = choose|k: int|
                        sp1 + 1 <= k < sp2 && !spec_is_uri_byte(#[trigger] src@[k]);
                    assert(p[k - (sp1 as int + 1)] == src@[k]);
                    assert(!spec_is_uri_byte(p[k - (sp1 as int + 1)]));
                }
            }
            assert(spec_parse_request_line(line) is None);
            assert(spec_decode(src@) is Malformed);
        }
        return Err(StreamError::IoError("failed to parse http request".to_owned()));
    }
    // version
    let v11 = version_matches(src, sp2 + 1, e0, true);
    let v10 = version_matches(src, sp2 + 1, e0, false);
    if !v11 {
        if v10 {
            return Err(StreamError::IoError("only HTTP/1.1 accepted".to_owned()));
        }
        proof {
            lemma_distinct_details();
            match spec_parse_request_line(line) {
                None => {
                    assert(spec_decode(src@) is Malformed);
                },
                Some((m, p, v)) => {
                    assert(v == line.skip(sp2 as int + 1));
                    assert(v != "HTTP/1.1"@.map_values(|c: char| c as u8));
                    assert(v != "HTTP/1.0"@.map_values(|c: char| c as u8));
                    assert(spec_decode(src@) is Malformed);
                },
            }
        }
        return Err(StreamError::IoError("failed to parse http request".to_owned()));
    }
    let method = ascii_string(src, 0, sp1);
    let path = ascii_string(src, sp1 + 1, sp2);
    proof {
        assert(spec_ascii_chars(src@.subrange(0, sp1 as int)) == spec_ascii_chars(
            line.take(sp1 as int),
        ));
        assert(spec_ascii_chars(src@.subrange(sp1 as int + 1, sp2 as int)) == spec_ascii_chars(
            line.subrange(sp1 as int + 1, sp2 as int),
        ));
    }
    // headers
    let mut headers: Vec<(String, Vec<u8>)> = Vec::new();
    let mut at = e0 + 2;
    let ghost mut seen: Seq<(Seq<u8>, Seq<u8>)> = Seq::empty();
    proof {
        match spec_parse_headers(src@, e0 + 2) {
            SpecHeaders::Done(rest, amt) => {
                assert(Seq::<(Seq<u8>, Seq<u8>)>::empty() + rest =~= rest);
            },
            _ => {},
        }
    }
    loop
        invariant
            e0 + 2 <= at <= src@.len(),
            n == src@.len(),
            headers@.len() == seen.len(),
            forall|i: int|
                0 <= i < seen.len() ==> spec_ascii_chars(seen[i].0) == (
                #[trigger] headers@[i]).0@ && seen[i].1 == headers@[i].1@,
            spec_parse_headers(src@, e0 + 2) == (match spec_parse_headers(src@, at as int) {
                SpecHeaders::Partial => SpecHeaders::Partial,
                SpecHeaders::Malformed => SpecHeaders::Malformed,
                SpecHeaders::Done(rest, amt) => SpecHeaders::Done(seen + rest, amt),
            }),
            spec_decode(src@) == (match spec_parse_headers(src@, e0 + 2) {
                SpecHeaders::Partial => SpecDecode::Partial,
                SpecHeaders::Malformed => SpecDecode::Malformed,
                SpecHeaders::Done(hs, a) => SpecDecode::Request(method@, path@, hs, a),
            }),
        decreases src@.len() - at,
    {
        let e = find_crlf(src, at);
        if e == n {
            proof {
                assert(spec_parse_headers(src@, at as int) is Partial);
            }
            return Ok(None);
        }
        if e == at {
            proof {
                assert(spec_parse_headers(src@, at as int) == SpecHeaders::Done(
                    Seq::<(Seq<u8>, Seq<u8>)>::empty(),
                    at + 2,
                ));
                assert(seen + Seq::<(Seq<u8>, Seq<u8>)>::empty() =~= seen);
            }
            let req = HttpRequest { method, path, headers };
            return Ok(Some((req, at + 2)));
        }
        let colon = find_byte(src, 58, at);
        if colon >= e {
            proof {
                assert(spec_parse_headers(src@, at as int) is Malformed);
            }
            proof {
            lemma_distinct_details();
        }
        return Err(StreamError::IoError("failed to parse http request".to_owned()));
        }
        let name_ok = colon > at && all_in_set(src, at, colon, true);
        proof {
            assert(src@.subrange(at as int, colon as int).len() == colon - at);
            assert(forall|k: int|
                0 <= k < colon - at ==> #[trigger] src@.subrange(at as int, colon as int)[k]
                    == src@[at + k]);
        }
        if !name_ok {
            proof {
                let nm = src@.subrange(at as int, colon as int);
                if nm.len() > 0 {
                    let k = choose|k: int|
                        at <= k < colon && !spec_is_token_byte(#[trigger] src@[k]);
                    assert(!spec_is_token_byte(nm[k - at]));
                }
                assert(spec_parse_headers(src@, at as int) is Malformed);
            }
            proof {
            lemma_distinct_details();
        }
        return Err(StreamError::IoError("failed to parse http request".to_owned()));
        }
        let v0 = skip_blanks(src, colon + 1, e);
        let v1 = rskip_blanks(src, v0, e);
        let name = ascii_string(src, at, colon);
        let value = byte_range(src, v0, v1);
        proof {
            let nm = src@.subrange(at as int, colon as int);
            assert(forall|k: int| 0 <= k < nm.len() ==> spec_is_token_byte(#[trigger] nm[k]));
            assert(spec_parse_headers(src@, at as int) == (
                match spec_parse_headers(src@, e + 2) {
                    SpecHeaders::Partial => SpecHeaders::Partial,
                    SpecHeaders::Malformed => SpecHeaders::Malformed,
                    SpecHeaders::Done(rest, amt) => SpecHeaders::Done(
                        seq![(nm, src@.subrange(v0 as int, v1 as int))] + rest,
                        amt,
                    ),
                }));
        }
        headers.push((name, value));
        proof {
            let hdr = (src@.subrange(at as int, colon as int), src@.subrange(v0 as int, v1 as int));
            let prev = seen;
            seen = seen.push(hdr);
            match spec_parse_headers(src@, e + 2) {
                SpecHeaders::Done(rest2, amt2) => {
                    assert(prev + (seq![hdr] + rest2) =~= seen + rest2);
                },
                _ => {},
            }
        }
        at = e + 2;
    }
}

/// Whether `src[from..to]` spells the version string: `HTTP/1.1` when
/// `eleven` is set, else `HTTP/1.0`.
fn version_matches(src: &Vec<u8>, from: usize, to: usize, eleven: bool) -> (r: bool)
    requires
        from <= to <= src@.len(),
    ensures
        eleven ==> r == (src@.subrange(from as int, to as int) == "HTTP/1.1"@.map_values(
            |c: char| c as u8,
        )),
        !eleven ==> r == (src@.subrange(from as int, to as int) == "HTTP/1.0"@.map_values(
            |c: char| c as u8,
        )),
{
    proof {
        reveal_strlit("HTTP/1.1");
        reveal_strlit("HTTP/1.0");
    }
    let last: u8 = if eleven {
        49
    } else {
        48
    };
    let r = to - from == 8 && src[from] == 72 && src[from + 1] == 84 && src[from + 2] == 84
        && src[from + 3] == 80 && src[from + 4] == 47 && src[from + 5] == 49 && src[from + 6] == 46
        && src[from + 7] == last;
    proof {
        let v = src@.subrange(from as int, to as int);
        let ghost target: Seq<char> = if eleven {
            "HTTP/1.1"@
        } else {
            "HTTP/1.0"@
        };
        if r {
            assert(v =~= target.map_values(|c: char| c as u8));
        } else {
            if v == target.map_values(|c: char| c as u8) {
                assert(v.len() == 8);
                assert(v[0] == 72 && v[1] == 84 && v[2] == 84 && v[3] == 80 && v[4] == 47 && v[5]
                    == 49 && v[6] == 46);
                assert(v[7] == last);
                assert(false);
            }
        }
    }
    r
}

} // verus!

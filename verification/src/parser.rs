//! The request-line parser: turns one line of bytes, of the shape
//! `GET <path> HTTP/<version>`, into a structured request or a parse failure.
//!
//! The mathematical model splits the line on the ASCII space byte and reads
//! the first three tokens; `parse_spec` is the whole parser as a spec
//! function, and `parse_http1` is proved to return exactly its value.

use vstd::prelude::*;
use vstd::slice::slice_subrange;
use vstd::utf8::decode_utf8;
use vstd::utf8::valid_utf8;

verus! {

/// The ASCII space byte, the token separator of a request line.
pub const SPACE: u8 = 32;

/// A request method. Only `GET` is understood today; the enum is open for
/// further variants without reshaping the parsing algorithm.
#[derive(Clone, Copy, PartialEq, Eq, Structural, Debug)]
#[non_exhaustive]
pub enum Method {
    GET,
}

/// Why a request line failed to parse.
#[derive(Clone, Copy, PartialEq, Eq, Structural, Debug)]
pub enum ParseError {
    /// Fewer than three space-separated tokens on the line.
    TruncatedRequestLine,
    /// The method token is not `GET`.
    UnsupportedMethod,
    /// The path token is not valid UTF-8 text.
    MalformedPath,
    /// The protocol token does not begin with `HTTP/`, or what follows that
    /// prefix is not valid UTF-8 text.
    MalformedVersion,
}

/// A parsed request line: read-only views into the line it was parsed from.
#[derive(PartialEq, Debug)]
pub struct Request<'a> {
    pub method: Method,
    /// The path token, verbatim; not normalized against any filesystem.
    pub path: &'a str,
    /// What follows the `HTTP/` prefix of the protocol token, e.g. `1.1`.
    pub version: &'a str,
}

impl<'a> Request<'a> {
    pub fn new(method: Method, path: &'a str, version: &'a str) -> (r: Request<'a>)
        ensures
            r.method == method,
            r.path == path,
            r.version == version,
    {
        Request { method, path, version }
    }
}

/// The bytes of the only supported method token, `GET`.
pub open spec fn method_get_bytes() -> Seq<u8> {
    seq![71u8, 69u8, 84u8]
}

/// The bytes of the protocol-token prefix `HTTP/`.
pub open spec fn http_prefix_bytes() -> Seq<u8> {
    seq![72u8, 84u8, 84u8, 80u8, 47u8]
}

/// Index of the first space byte of `s`, or `s.len()` if there is none.
pub open spec fn find_space(s: Seq<u8>) -> int
    decreases s.len(),
{
    if s.len() == 0 {
        0
    } else if s[0] == SPACE {
        0
    } else {
        1 + find_space(s.skip(1))
    }
}

/// The first token of `s`: everything before the first space.
pub open spec fn head_token(s: Seq<u8>) -> Seq<u8> {
    s.take(find_space(s))
}

/// Whether a token follows the first one, i.e. `s` holds a space at all.
pub open spec fn has_next_token(s: Seq<u8>) -> bool {
    find_space(s) < s.len()
}

/// Everything after the first space of `s`; meaningful when `has_next_token(s)`.
pub open spec fn tail_after_token(s: Seq<u8>) -> Seq<u8> {
    s.skip(find_space(s) + 1)
}

/// What `find_space` finds: a position within the bytes, a space there
/// unless it is the end, and no space anywhere before it.
pub proof fn lemma_find_space(s: Seq<u8>)
    ensures
        0 <= find_space(s) <= s.len(),
        find_space(s) < s.len() ==> s[find_space(s)] == SPACE,
        forall|j: int| 0 <= j < find_space(s) ==> s[j] != SPACE,
    decreases s.len(),
{
    if s.len() == 0 {
    } else if s[0] == SPACE {
    } else {
        lemma_find_space(s.skip(1));
        assert forall|j: int| 0 <= j < find_space(s) implies s[j] != SPACE by {
            if j > 0 {
                assert(s.skip(1)[j - 1] == s[j]);
            }
        }
    }
}

/// `find_space` is pinned by its characterization: no space before `i`,
/// and either a space at `i` or `i` is the length.
pub proof fn lemma_find_space_unique(s: Seq<u8>, i: int)
    requires
        0 <= i <= s.len(),
        forall|j: int| 0 <= j < i ==> s[j] != SPACE,
        i < s.len() ==> s[i] == SPACE,
    ensures
        find_space(s) == i,
{
    lemma_find_space(s);
    if find_space(s) < i {
        assert(s[find_space(s)] == SPACE);
    }
    if find_space(s) > i {
        assert(s[i] != SPACE);
    }
}

/// The whole parser as a function of the line's bytes. Token by token:
/// the method must be `GET`, the path must decode as UTF-8, the protocol
/// token must carry the `HTTP/` prefix and a UTF-8 remainder; a missing
/// second or third token truncates the line. On success the result is the
/// decoded path and the decoded version remainder.
pub open spec fn parse_spec(s: Seq<u8>) -> Result<(Seq<char>, Seq<char>), ParseError> {
    if head_token(s) != method_get_bytes() {
        Err(ParseError::UnsupportedMethod)
    } else if !has_next_token(s) {
        Err(ParseError::TruncatedRequestLine)
    } else {
        let rest = tail_after_token(s);
        let path_tok = head_token(rest);
        if !valid_utf8(path_tok) {
            Err(ParseError::MalformedPath)
        } else if !has_next_token(rest) {
            Err(ParseError::TruncatedRequestLine)
        } else {
            let version_tok = head_token(tail_after_token(rest));
            if version_tok.len() < 5 || version_tok.take(5) != http_prefix_bytes() {
                Err(ParseError::MalformedVersion)
            } else if !valid_utf8(version_tok.skip(5)) {
                Err(ParseError::MalformedVersion)
            } else {
                Ok((decode_utf8(path_tok), decode_utf8(version_tok.skip(5))))
            }
        }
    }
}

/// Relies on `core::str::from_utf8`: it returns `Ok` exactly on valid UTF-8
/// input, and the returned string slice views the given bytes, so its
/// characters are their UTF-8 decoding.
#[verifier::external_body]
fn utf8_decode<'a>(bytes: &'a [u8]) -> (r: Option<&'a str>)
    ensures
        r is Some <==> valid_utf8(bytes@),
        r matches Some(t) ==> t@ == decode_utf8(bytes@),
{
    match core::str::from_utf8(bytes) {
        Ok(t) => Some(t),
        Err(_) => None,
    }
}

/// Recognize the method token: exactly the bytes `GET`, or nothing.
pub fn parse_method(input: &[u8]) -> (r: Option<Method>)
    ensures
        r == (if input@ == method_get_bytes() {
            Some(Method::GET)
        } else {
            None::<Method>
        }),
{
    if input.len() == 3 && input[0] == 71 && input[1] == 69 && input[2] == 84 {
        proof {
            assert(input@ =~= method_get_bytes());
        }
        Some(Method::GET)
    } else {
        proof {
            if input@ == method_get_bytes() {
                assert(input@.len() == 3);
                assert(input@[0] == 71 && input@[1] == 69 && input@[2] == 84);
            }
        }
        None
    }
}

/// Parse one request line. The result is exactly `parse_spec` of the line's
/// bytes: on success a request whose method is `GET`, whose `path` is the
/// second token decoded as UTF-8, and whose `version` is what follows the
/// `HTTP/` prefix of the third token, decoded as UTF-8; on failure the
/// error that `parse_spec` assigns to the line. Pure: the outcome is a
/// function of the line's bytes alone.
pub fn parse_http1<'a>(input: &'a [u8]) -> (r: Result<Request<'a>, ParseError>)
    ensures
        match r {
            Ok(req) => req.method == Method::GET && parse_spec(input@) == Ok::<
                (Seq<char>, Seq<char>),
                ParseError,
            >((req.path@, req.version@)),
            Err(e) => parse_spec(input@) == Err::<(Seq<char>, Seq<char>), ParseError>(e),
        },
{
    let n = input.len();
    let i1 = find_space_from(input, 0);
    proof {
        assert(input@.skip(0) =~= input@);
        assert(head_token(input@) =~= input@.subrange(0, i1 as int));
    }
    let method = match parse_method(slice_subrange(input, 0, i1)) {
        Some(m) => m,
        None => {
            return Err(ParseError::UnsupportedMethod);
        },
    };
    if i1 == n {
        return Err(ParseError::TruncatedRequestLine);
    }
    let ghost rest: Seq<u8> = tail_after_token(input@);
    proof {
        assert(rest =~= input@.skip(i1 as int + 1));
    }
    let i2 = find_space_from(input, i1 + 1);
    proof {
        assert(find_space(rest) == i2 - (i1 + 1));
        assert(head_token(rest) =~= input@.subrange(i1 as int + 1, i2 as int));
    }
    let path_bytes = slice_subrange(input, i1 + 1, i2);
    let path = match utf8_decode(path_bytes) {
        Some(p) => p,
        None => {
            return Err(ParseError::MalformedPath);
        },
    };
    if i2 == n {
        return Err(ParseError::TruncatedRequestLine);
    }
    let ghost rest2: Seq<u8> = tail_after_token(rest);
    proof {
        assert(rest2 =~= input@.skip(i2 as int + 1));
    }
    let i3 = find_space_from(input, i2 + 1);
    let ghost vtok: Seq<u8> = head_token(rest2);
    proof {
        assert(find_space(rest2) == i3 - (i2 + 1));
        assert(vtok =~= input@.subrange(i2 as int + 1, i3 as int));
    }
    if i3 - (i2 + 1) >= 5 && input[i2 + 1] == 72 && input[i2 + 2] == 84 && input[i2 + 3] == 84
        && input[i2 + 4] == 80 && input[i2 + 5] == 47 {
        proof {
            assert(vtok.take(5) =~= http_prefix_bytes());
        }
        let version_bytes = slice_subrange(input, i2 + 6, i3);
        proof {
            assert(vtok.skip(5) =~= version_bytes@);
        }
        match utf8_decode(version_bytes) {
            Some(version) => Ok(Request::new(method, path, version)),
            None => Err(ParseError::MalformedVersion),
        }
    } else {
        proof {
            if vtok.len() >= 5 && vtok.take(5) == http_prefix_bytes() {
                assert(vtok[0] == vtok.take(5)[0] && vtok[1] == vtok.take(5)[1] && vtok[2]
                    == vtok.take(5)[2] && vtok[3] == vtok.take(5)[3] && vtok[4] == vtok.take(5)[4]);
                assert(input@[i2 as int + 1] == 72 && input@[i2 as int + 2] == 84 && input@[i2
                    as int + 3] == 84 && input@[i2 as int + 4] == 80 && input@[i2 as int + 5]
                    == 47);
            }
        }
        Err(ParseError::MalformedVersion)
    }
}

/// The bytes of the line `GET <path> HTTP/<version>`, for a given path
/// token and a given version remainder.
pub open spec fn well_formed_line(path_tok: Seq<u8>, version_rest: Seq<u8>) -> Seq<u8> {
    method_get_bytes() + seq![SPACE] + path_tok + seq![SPACE] + http_prefix_bytes() + version_rest
}

/// Law: every well-formed line `GET <path> HTTP/<version>` parses, and the
/// request holds the path token and the version remainder exactly, each
/// decoded as UTF-8.
pub proof fn lemma_parse_well_formed(path_tok: Seq<u8>, version_rest: Seq<u8>)
    requires
        forall|j: int| 0 <= j < path_tok.len() ==> path_tok[j] != SPACE,
        forall|j: int| 0 <= j < version_rest.len() ==> version_rest[j] != SPACE,
        valid_utf8(path_tok),
        valid_utf8(version_rest),
    ensures
        parse_spec(well_formed_line(path_tok, version_rest)) == Ok::<
            (Seq<char>, Seq<char>),
            ParseError,
        >((decode_utf8(path_tok), decode_utf8(version_rest))),
{
    let s = well_formed_line(path_tok, version_rest);
    let plen = path_tok.len() as int;
    let vlen = version_rest.len() as int;
    assert(s.len() == 10 + plen + vlen);
    assert(s[0] == 71 && s[1] == 69 && s[2] == 84 && s[3] == SPACE);
    lemma_find_space_unique(s, 3);
    assert(head_token(s) =~= method_get_bytes());
    let rest = tail_after_token(s);
    assert(rest =~= path_tok + seq![SPACE] + http_prefix_bytes() + version_rest);
    assert forall|j: int| 0 <= j < plen implies rest[j] != SPACE by {
        assert(rest[j] == path_tok[j]);
    }
    assert(rest[plen] == SPACE);
    lemma_find_space_unique(rest, plen);
    assert(head_token(rest) =~= path_tok);
    let rest2 = tail_after_token(rest);
    assert(rest2 =~= http_prefix_bytes() + version_rest);
    assert forall|j: int| 0 <= j < rest2.len() implies rest2[j] != SPACE by {
        if j >= 5 {
            assert(rest2[j] == version_rest[j - 5]);
        }
    }
    lemma_find_space_unique(rest2, rest2.len() as int);
    assert(head_token(rest2) =~= rest2);
    assert(head_token(rest2).take(5) =~= http_prefix_bytes());
    assert(head_token(rest2).skip(5) =~= version_rest);
}

/// Law: a line whose first token is anything but `GET` fails with
/// `UnsupportedMethod`, whatever else it holds.
pub proof fn lemma_unsupported_method(line: Seq<u8>)
    requires
        head_token(line) != method_get_bytes(),
    ensures
        parse_spec(line) == Err::<(Seq<char>, Seq<char>), ParseError>(
            ParseError::UnsupportedMethod,
        ),
{
}

/// Law: a `GET` line with fewer than three tokens fails with
/// `TruncatedRequestLine` — either no second token at all, or a path token
/// that is text but is followed by no third token.
pub proof fn lemma_truncated_request_line(line: Seq<u8>)
    requires
        head_token(line) == method_get_bytes(),
        has_next_token(line) ==> valid_utf8(head_token(tail_after_token(line))) && !has_next_token(
            tail_after_token(line),
        ),
    ensures
        parse_spec(line) == Err::<(Seq<char>, Seq<char>), ParseError>(
            ParseError::TruncatedRequestLine,
        ),
{
}

/// Law: once three tokens are there, the method is `GET` and the path is
/// text, a protocol token that does not begin with `HTTP/` fails with
/// `MalformedVersion`.
pub proof fn lemma_malformed_version(line: Seq<u8>)
    requires
        head_token(line) == method_get_bytes(),
        has_next_token(line),
        valid_utf8(head_token(tail_after_token(line))),
        has_next_token(tail_after_token(line)),
        ({
            let version_tok = head_token(tail_after_token(tail_after_token(line)));
            version_tok.len() < 5 || version_tok.take(5) != http_prefix_bytes()
        }),
    ensures
        parse_spec(line) == Err::<(Seq<char>, Seq<char>), ParseError>(ParseError::MalformedVersion),
{
}

/// Scan `s` for its first space byte at or after `start`.
fn find_space_from(s: &[u8], start: usize) -> (r: usize)
    requires
        start <= s@.len(),
    ensures
        start <= r <= s@.len(),
        r - start == find_space(s@.skip(start as int)),
{
    let n = s.len();
    let mut i = start;
    while i < n
        invariant
            start <= i <= n,
            n == s@.len(),
            forall|j: int| start <= j < i ==> s@[j] != SPACE,
        decreases n - i,
    {
        if s[i] == SPACE {
            proof {
                lemma_space_scan(s@, start as int, i as int);
            }
            return i;
        }
        i += 1;
    }
    proof {
        lemma_space_scan(s@, start as int, n as int);
    }
    n
}

/// A scan that saw no space in `s[start..i]`, and a space at `i` unless `i`
/// is the end, has found `find_space` of the suffix.
proof fn lemma_space_scan(s: Seq<u8>, start: int, i: int)
    requires
        0 <= start <= i <= s.len(),
        forall|j: int| start <= j < i ==> s[j] != SPACE,
        i < s.len() ==> s[i] == SPACE,
    ensures
        find_space(s.skip(start)) == i - start,
{
    let suffix = s.skip(start);
    assert forall|j: int| 0 <= j < i - start implies suffix[j] != SPACE by {
        assert(suffix[j] == s[start + j]);
    }
    if i < s.len() {
        assert(suffix[i - start] == s[i]);
    }
    lemma_find_space_unique(suffix, i - start);
}

} // verus!

//! Response framing: the two wire shapes this server ever writes, as exact
//! byte sequences. A success wraps the file's bytes with a `200 OK` status
//! line, a `text/plain` content type and the body's byte length; a miss is
//! the bare `404 NOT FOUND` status line followed by the blank-line
//! terminator, with no body.

use vstd::prelude::*;
use vstd::string::StringSliceAdditionalSpecFns;
use vstd::utf8::encode_utf8;

verus! {

/// The decimal rendering of `n`: most significant digit first, no sign, no
/// leading zero (a single `0` for zero itself).
pub open spec fn decimal_bytes(n: nat) -> Seq<u8>
    decreases n,
{
    if n < 10 {
        seq![(48 + n) as u8]
    } else {
        decimal_bytes(n / 10) + seq![(48 + n % 10) as u8]
    }
}

/// The number that a sequence of decimal digit bytes denotes.
pub open spec fn decimal_value(digits: Seq<u8>) -> nat
    decreases digits.len(),
{
    if digits.len() == 0 {
        0
    } else {
        decimal_value(digits.take(digits.len() - 1)) * 10 + (
        if digits.last() >= 48 {
            (digits.last() - 48) as nat
        } else {
            0
        })
    }
}

/// Law: the rendered `Content-Length` really is the body's byte length —
/// `decimal_bytes(n)` holds ASCII digits only and denotes `n`.
pub proof fn lemma_decimal_bytes_value(n: nat)
    ensures
        decimal_value(decimal_bytes(n)) == n,
        forall|j: int| 0 <= j < decimal_bytes(n).len() ==> 48 <= #[trigger] decimal_bytes(n)[j]
            <= 57,
    decreases n,
{
    if n < 10 {
        let d = decimal_bytes(n);
        assert(d.take(d.len() - 1) =~= Seq::<u8>::empty());
        assert(decimal_value(d) == decimal_value(d.take(d.len() - 1)) * 10 + (d.last() - 48) as nat);
    } else {
        lemma_decimal_bytes_value(n / 10);
        let d = decimal_bytes(n);
        assert(d.take(d.len() - 1) =~= decimal_bytes(n / 10));
        assert(decimal_value(d) == (n / 10) * 10 + n % 10);
    }
}

/// The bytes of a `200 OK` response carrying `body`: status line, content
/// type, the body's byte length, the blank-line terminator, the body, and a
/// trailing line terminator.
pub open spec fn ok_response_spec(body: Seq<u8>) -> Seq<u8> {
    encode_utf8("HTTP/1.1 200 OK\r\nContent-Type: text/plain\r\nContent-Length: "@)
        + decimal_bytes(body.len()) + encode_utf8("\r\n\r\n"@) + body + encode_utf8("\r\n"@)
}

/// The bytes of the whole `404 NOT FOUND` response: the status line and the
/// blank-line terminator, nothing else.
pub open spec fn not_found_response_spec() -> Seq<u8> {
    encode_utf8("HTTP/1.1 404 NOT FOUND\r\n\r\n"@)
}

/// Append the UTF-8 bytes of `s` to `out`.
fn push_str_bytes(out: &mut Vec<u8>, s: &str)
    ensures
        final(out)@ == old(out)@ + s.spec_bytes(),
{
    let bytes = s.as_bytes();
    let n = bytes.len();
    let mut i: usize = 0;
    while i < n
        invariant
            i <= n,
            n == bytes@.len(),
            bytes@ == s.spec_bytes(),
            out@ == old(out)@ + bytes@.take(i as int),
        decreases n - i,
    {
        out.push(bytes[i]);
        proof {
            assert(out@ =~= old(out)@ + bytes@.take(i as int + 1));
        }
        i += 1;
    }
    proof {
        assert(out@ =~= old(out)@ + s.spec_bytes());
    }
}

/// Append the bytes of `extra` to `out`.
fn push_bytes(out: &mut Vec<u8>, extra: &[u8])
    ensures
        final(out)@ == old(out)@ + extra@,
{
    let n = extra.len();
    let mut i: usize = 0;
    while i < n
        invariant
            i <= n,
            n == extra@.len(),
            out@ == old(out)@ + extra@.take(i as int),
        decreases n - i,
    {
        out.push(extra[i]);
        proof {
            assert(out@ =~= old(out)@ + extra@.take(i as int + 1));
        }
        i += 1;
    }
    proof {
        assert(out@ =~= old(out)@ + extra@);
    }
}

/// Append the decimal rendering of `n` to `out`.
fn push_decimal(out: &mut Vec<u8>, n: usize)
    ensures
        final(out)@ == old(out)@ + decimal_bytes(n as nat),
    decreases n,
{
    if n < 10 {
        out.push(48 + n as u8);
        proof {
            assert(out@ =~= old(out)@ + decimal_bytes(n as nat));
        }
    } else {
        push_decimal(out, n / 10);
        out.push(48 + (n % 10) as u8);
        proof {
            assert(out@ =~= old(out)@ + decimal_bytes(n as nat));
        }
    }
}

/// Frame `body` as a complete `200 OK` response, its `Content-Length` the
/// byte length of `body`.
pub fn ok_response(body: &[u8]) -> (r: Vec<u8>)
    ensures
        r@ == ok_response_spec(body@),
{
    let mut out: Vec<u8> = Vec::new();
    push_str_bytes(&mut out, "HTTP/1.1 200 OK\r\nContent-Type: text/plain\r\nContent-Length: ");
    push_decimal(&mut out, body.len());
    push_str_bytes(&mut out, "\r\n\r\n");
    push_bytes(&mut out, body);
    push_str_bytes(&mut out, "\r\n");
    proof {
        assert(out@ =~= ok_response_spec(body@));
    }
    out
}

/// The complete `404 NOT FOUND` response.
pub fn not_found_response() -> (r: Vec<u8>)
    ensures
        r@ == not_found_response_spec(),
{
    let mut out: Vec<u8> = Vec::new();
    push_str_bytes(&mut out, "HTTP/1.1 404 NOT FOUND\r\n\r\n");
    proof {
        assert(out@ =~= not_found_response_spec());
    }
    out
}

} // verus!

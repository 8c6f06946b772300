//! Raw response bytes: status line, a `Content-Length` that is always
//! present, a blank line, then the body.

use vstd::prelude::*;
use vstd::utf8::encode_utf8;
use crate::status::Status;
use crate::status::spec_status_text;

verus! {

/// The decimal digits of a non-negative number, most significant
/// first.
pub open spec fn dec_bytes(n: int) -> Seq<u8>
    decreases n,
        when 0 <= n
{
    if n < 10 {
        seq![(48 + n) as u8]
    } else {
        dec_bytes(n / 10) + seq![(48 + n % 10) as u8]
    }
}

/// The bytes of a whole response: `HTTP/1.1 <status>`, the body's
/// length as the `Content-Length` value, the blank line, the body.
pub open spec fn spec_response_bytes(status: Status, body: Seq<u8>) -> Seq<u8> {
    encode_utf8("HTTP/1.1 "@) + encode_utf8(spec_status_text(status)) + encode_utf8(
        "\r\nContent-Length: "@,
    ) + dec_bytes(body.len() as int) + encode_utf8("\r\n\r\n"@) + body
}

/// Append a string's bytes to a byte vector.
fn push_str_bytes(v: &mut Vec<u8>, s: &str)
    ensures
        final(v)@ == old(v)@ + encode_utf8(s@),
{
    let bytes = s.as_bytes();
    v.extend_from_slice(bytes);
}

/// Append a number's decimal digits to a byte vector.
fn push_decimal(v: &mut Vec<u8>, n: usize)
    ensures
        final(v)@ == old(v)@ + dec_bytes(n as int),
{
    if n == 0 {
        v.push(48);
        proof {
            assert(dec_bytes(0) =~= seq![48u8]);
            assert(final(v)@ =~= old(v)@ + dec_bytes(0));
        }
        return ;
    }
    let mut digits: Vec<u8> = Vec::new();
    let mut m = n;
    proof {
        assert(dec_bytes(n as int) =~= dec_bytes(n as int) + Seq::<u8>::empty());
    }
    while m > 0
        invariant
            m > 0 ==> dec_bytes(n as int) == dec_bytes(m as int) + digits@,
            m == 0 ==> dec_bytes(n as int) == digits@,
        decreases m,
    {
        let ghost m0 = m as int;
        let ghost d0 = digits@;
        let d = (m % 10) as u8 + 48;
        digits.insert(0, d);
        proof {
            assert(digits@ =~= seq![(48 + m0 % 10) as u8] + d0);
        }
        m = m / 10;
        proof {
            if m > 0 {
                assert(dec_bytes(m0) == dec_bytes(m0 / 10) + seq![(48 + m0 % 10) as u8]);
                assert(dec_bytes(m0) + d0 =~= dec_bytes(m0 / 10) + (seq![(48 + m0 % 10) as u8]
                    + d0));
            } else {
                assert(m0 < 10);
                assert(dec_bytes(m0) =~= seq![(48 + m0) as u8]);
                assert(m0 % 10 == m0);
                assert(dec_bytes(m0) + d0 =~= seq![(48 + m0 % 10) as u8] + d0);
            }
        }
    }
    v.append(&mut digits);
}

/// The raw bytes of a response without a body: the status line and a
/// zero `Content-Length`.
pub fn format_response(status: Status) -> (r: Vec<u8>)
    ensures
        r@ == spec_response_bytes(status, Seq::<u8>::empty()),
{
    format_response_with_body(status, Vec::new())
}

/// The raw bytes of a response carrying `body`, whose exact length is
/// declared in the always-present `Content-Length` header.
pub fn format_response_with_body(status: Status, body: Vec<u8>) -> (r: Vec<u8>)
    ensures
        r@ == spec_response_bytes(status, body@),
{
    let mut r: Vec<u8> = Vec::new();
    push_str_bytes(&mut r, "HTTP/1.1 ");
    push_str_bytes(&mut r, status.text());
    push_str_bytes(&mut r, "\r\nContent-Length: ");
    push_decimal(&mut r, body.len());
    push_str_bytes(&mut r, "\r\n\r\n");
    let mut b = body;
    r.append(&mut b);
    proof {
        assert(r@ =~= spec_response_bytes(status, body@));
    }
    r
}

} // verus!

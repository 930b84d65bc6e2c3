//! SHA-256 digests and how they are written.
use vstd::prelude::*;

pub mod laws;

verus! {

/// The SHA-256 digest of some bytes.
pub uninterp spec fn sha256(data: Seq<u8>) -> Seq<u8>;

/// `sha2::Sha256::digest`: 32 bytes that depend on the given bytes alone. What
/// they are is named rather than stated.
#[verifier::external_body]
pub(crate) fn digest(data: &[u8]) -> (r: Vec<u8>)
    ensures
        r@ == sha256(data@),
        r@.len() == 32,
{
    <sha2::Sha256 as sha2::Digest>::digest(data).to_vec()
}

/// A half byte as a hexadecimal digit.
pub open spec fn hex_digit(n: u8) -> char {
    if n < 10 {
        (n + '0' as int) as char
    } else {
        (n - 10 + 'a' as int) as char
    }
}

/// Bytes written in hexadecimal, two small digits each.
pub open spec fn hex(data: Seq<u8>) -> Seq<char> {
    Seq::new(
        2 * data.len(),
        |i: int|
            if i % 2 == 0 {
                hex_digit((data[i / 2] / 16) as u8)
            } else {
                hex_digit((data[i / 2] % 16) as u8)
            },
    )
}

fn digit(n: u8) -> (r: char)
    requires
        n < 16,
    ensures
        r == hex_digit(n),
{
    if n < 10 {
        (n + 48u8) as char
    } else {
        (n - 10 + 97u8) as char
    }
}

pub fn to_hex(data: &[u8]) -> (r: String)
    ensures
        r@ == hex(data@),
{
    let mut out = String::new();
    for i in 0..data.len()
        invariant
            out@ == hex(data@).take(2 * i as int),
    {
        out.push(digit(data[i] / 16));
        out.push(digit(data[i] % 16));
        proof {
            let h = hex(data@);
            assert(h[2 * i as int] == hex_digit((data@[i as int] / 16) as u8));
            assert(h[2 * i as int + 1] == hex_digit((data@[i as int] % 16) as u8));
            assert(h.take(2 * (i as int + 1)) =~= h.take(2 * i as int).push(h[2 * i as int]).push(
                h[2 * i as int + 1],
            ));
        }
    }
    proof {
        assert(hex(data@).take(2 * data@.len() as int) =~= hex(data@));
    }
    out
}

/// The SHA-256 digest of some bytes, written in hexadecimal.
pub fn fingerprint(data: &[u8]) -> (r: String)
    ensures
        r@ == hex(sha256(data@)),
        r@.len() == 64,
{
    to_hex(digest(data).as_slice())
}

} // verus!

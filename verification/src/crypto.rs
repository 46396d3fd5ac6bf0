//! Digest and encoding primitives used by request signing.
//!
//! The MD5 digest and the base64 encoding are taken from their crates and
//! trusted; each result is given a name that the signing contracts speak of.

use vstd::prelude::*;
use base64::Engine;

verus! {

/// The 32-character lowercase hex MD5 digest of a string's bytes; a
/// function of the characters alone.
pub uninterp spec fn md5_hex_of(s: Seq<char>) -> Seq<char>;

/// The standard (padded) base64 encoding of a string's bytes; a function
/// of the characters alone.
pub uninterp spec fn base64_of(s: Seq<char>) -> Seq<char>;

/// Relies on `md5::compute` and the `Debug` form of `md5::Digest`, which
/// prints each of the 16 digest bytes as two lowercase hex digits.
#[verifier::external_body]
pub fn md5_hash(pwd: &str) -> (r: String)
    ensures
        r@ == md5_hex_of(pwd@),
        r@.len() == 32,
{
    let digest = md5::compute(pwd);
    format!("{:?}", digest)
}

/// Relies on `base64::engine::general_purpose::STANDARD.encode`: the
/// standard-alphabet padded encoding of the input bytes; empty input gives
/// an empty string.
#[verifier::external_body]
pub fn base64_encode(data: &String) -> (r: String)
    ensures
        r@ == base64_of(data@),
        data@.len() == 0 ==> r@.len() == 0,
{
    base64::engine::general_purpose::STANDARD.encode(data)
}

/// Whether `md5_pwd` is the lowercase hex MD5 digest of `pwd`.
pub fn md5_verify(pwd: &str, md5_pwd: &str) -> (r: bool)
    ensures
        r == (md5_hex_of(pwd@) == md5_pwd@),
{
    let digest = md5_hash(pwd);
    let expected = String::from_str(md5_pwd);
    digest == expected
}

} // verus!

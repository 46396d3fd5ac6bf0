//! Request-body signing.
//!
//! The canonical form of a request is its body with the tenant secret
//! appended and every whitespace character removed; the expected signature
//! is the lowercase hex MD5 digest of the standard base64 encoding of that
//! string. A request passes iff its `signature` header equals that digest
//! byte for byte.

use vstd::prelude::*;
use vstd::string::StringExecFns;
use crate::crypto::{base64_of, md5_hex_of, md5_hash, base64_encode};
use crate::errors::RequestError;
use crate::text::{spec_strip_ws, strip_whitespace};

verus! {

/// The signature a correctly signing client computes for `body` under
/// `secret`.
pub open spec fn spec_expected_signature(body: Seq<char>, secret: Seq<char>) -> Seq<char> {
    md5_hex_of(base64_of(spec_strip_ws(body + secret)))
}

/// Computes the expected signature of `body` under `secret`.
pub fn compute_signature(body: &str, secret: &str) -> (sig: String)
    ensures
        sig@ == spec_expected_signature(body@, secret@),
{
    let mut raw = String::from_str(body);
    raw.append(secret);
    let canon = strip_whitespace(raw.as_str());
    let b64 = base64_encode(&canon);
    md5_hash(b64.as_str())
}

/// Whether `signature` is exactly the expected signature of `body` under
/// `secret`.
pub fn verify_signature(body: &str, secret: &str, signature: &str) -> (ok: bool)
    ensures
        ok == (signature@ == spec_expected_signature(body@, secret@)),
{
    let expected = compute_signature(body, secret);
    let given = String::from_str(signature);
    given == expected
}

/// Decision of the signing middleware once the body is buffered: the
/// request passes iff a non-empty `signature` header arrived, the tenant
/// has a registered secret, and the signature equals the expected digest
/// of the body under that secret; every rejection is a signature error.
pub fn check_signed_request(signature: Option<&String>, secret: Option<&String>, body: &str) -> (r:
    Result<(), RequestError>)
    ensures
        r is Ok <==> ({
            &&& signature matches Some(sig)
            &&& sig@.len() > 0
            &&& secret matches Some(sec)
            &&& sig@ == spec_expected_signature(body@, sec@)
        }),
        r is Err ==> r->Err_0 is SignatureError,
{
    match signature {
        None => Err(RequestError::SignatureError),
        Some(sig) => {
            if sig.as_str().is_empty() {
                Err(RequestError::SignatureError)
            } else {
                match secret {
                    None => Err(RequestError::SignatureError),
                    Some(sec) => {
                        if verify_signature(body, sec.as_str(), sig.as_str()) {
                            Ok(())
                        } else {
                            Err(RequestError::SignatureError)
                        }
                    },
                }
            }
        },
    }
}

} // verus!

//! Base64 input in the standard alphabet with padding.

use base64::Engine;
use vstd::prelude::*;

verus! {

/// `base64::DecodeError`, carried through as the crate hands it out.
#[verifier::external_type_specification]
#[verifier::external_body]
pub struct ExDecodeError(base64::DecodeError);

/// The octets that the `base64` crate's standard engine decodes from an
/// input, or nothing where it rejects the input.
pub uninterp spec fn base64_standard(input: Seq<u8>) -> Option<Seq<u8>>;

/// Whether the input decodes as base64 to something other than itself.
pub open spec fn spec_is_valid_base64(data: Seq<u8>) -> bool {
    match base64_standard(data) {
        Some(decoded) => decoded != data,
        None => false,
    }
}

/// Calls `decode` on `base64::engine::general_purpose::STANDARD`.
#[verifier::external_body]
fn decode_standard(input: &[u8]) -> (r: Result<Vec<u8>, base64::DecodeError>)
    ensures
        match r {
            Ok(bytes) => base64_standard(input@) == Some(bytes@),
            Err(_) => base64_standard(input@) is None,
        },
{
    base64::engine::general_purpose::STANDARD.decode(input)
}

/// The octets that the input stands for in base64.
pub fn base64_decode(input: Vec<u8>) -> (r: Result<Vec<u8>, base64::DecodeError>)
    ensures
        match r {
            Ok(bytes) => base64_standard(input@) == Some(bytes@),
            Err(_) => base64_standard(input@) is None,
        },
{
    decode_standard(input.as_slice())
}

/// Whether the input decodes as base64 to something other than itself.
pub fn is_valid_base64(data: Vec<u8>) -> (r: bool)
    ensures
        r == spec_is_valid_base64(data@),
{
    match decode_standard(data.as_slice()) {
        Ok(decoded) => !same_bytes(decoded.as_slice(), data.as_slice()),
        Err(_) => false,
    }
}

/// Whether two runs of octets are equal.
pub fn same_bytes(a: &[u8], b: &[u8]) -> (r: bool)
    ensures
        r == (a@ == b@),
{
    if a.len() != b.len() {
        return false;
    }
    let mut i: usize = 0;
    while i < a.len()
        invariant
            i <= a.len(),
            a.len() == b.len(),
            forall|j: int| 0 <= j < i ==> a@[j] == b@[j],
        decreases a.len() - i,
    {
        if a[i] != b[i] {
            return false;
        }
        i = i + 1;
    }
    assert(a@ =~= b@);
    true
}

} // verus!

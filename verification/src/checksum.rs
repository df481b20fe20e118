//! Payload checksums: the algorithm identity, its digest, and the request
//! header that carries it. The content-hash algorithm is distinguished
//! because its digest doubles as the request-signing payload hash.

use vstd::prelude::*;

use vstd::string::StringSliceAdditionalSpecFns;

verus! {

/// A checksum algorithm the client can apply to a payload. SHA-256 is the
/// content-hash algorithm: its digest is also the signing payload hash.
#[derive(Debug, Clone, Copy, PartialEq, Eq, Structural)]
pub enum Checksum {
    Sha256,
}

/// The SHA-256 digest of a byte string; a function of the bytes alone.
pub uninterp spec fn sha256_of(b: Seq<u8>) -> Seq<u8>;

/// Relies on sha2::Sha256::digest: the digest depends on the bytes alone and
/// is 32 bytes long.
#[verifier::external_body]
fn sha256_digest(b: &Vec<u8>) -> (r: Vec<u8>)
    ensures
        r@ == sha256_of(b@),
        r@.len() == 32,
{
    <sha2::Sha256 as sha2::Digest>::digest(b.as_slice()).to_vec()
}

/// The standard base64 encoding of a byte string; a function of the bytes
/// alone.
pub uninterp spec fn base64_std(b: Seq<u8>) -> Seq<u8>;

/// Relies on base64's standard-alphabet engine (`BASE64_STANDARD`): the
/// encoding depends on the bytes alone.
#[verifier::external_body]
pub(crate) fn base64_encode(b: &Vec<u8>) -> (r: Vec<u8>)
    ensures
        r@ == base64_std(b@),
{
    base64::Engine::encode(&base64::prelude::BASE64_STANDARD, b.as_slice()).into_bytes()
}

/// The request-header name that carries a payload checksum.
pub open spec fn spec_checksum_header_name(c: Checksum) -> Seq<u8> {
    "x-amz-checksum-sha256".spec_bytes()
}

/// The digest an algorithm computes.
pub open spec fn spec_digest(c: Checksum, b: Seq<u8>) -> Seq<u8> {
    match c {
        Checksum::Sha256 => sha256_of(b),
    }
}

impl Checksum {
    /// The checksum request-header name for this algorithm.
    pub fn header_name(&self) -> (r: &'static str)
        ensures
            r.spec_bytes() == spec_checksum_header_name(*self),
    {
        match self {
            Checksum::Sha256 => "x-amz-checksum-sha256",
        }
    }

    /// Computes this algorithm's digest over the full payload.
    pub fn digest(&self, bytes: &Vec<u8>) -> (r: Vec<u8>)
        ensures
            r@ == spec_digest(*self, bytes@),
    {
        match self {
            Checksum::Sha256 => sha256_digest(bytes),
        }
    }
}

} // verus!

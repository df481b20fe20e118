//! Core of an S3-compatible object-storage client: request construction
//! (checksums, conditional-copy semantics, tag encoding, signing inputs),
//! bit-exact XML wire (de)serialization, order-preserving reconciliation of
//! batch results, and the part ledger for multipart uploads. Transport,
//! retries, signing and credentials are collaborators that consume what this
//! crate builds.

pub mod checksum;
pub mod client;
pub mod codec;
pub mod error;
pub mod parts;
pub mod path;
pub mod s3;
pub mod util;
pub mod xml;

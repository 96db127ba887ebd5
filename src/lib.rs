//! Signing and bundle validation for a balanced-ternary ledger: key derivation, one-time
//! signatures, address checksums, bundle tags and bundle integrity checks.

pub mod buffers;
pub mod checksum;
pub mod hmac;
pub mod model;
pub mod normalize;
pub mod responses;
pub mod signing;
pub mod ternary;
pub mod validators;

pub use hmac::HMAC;
pub use model::{Signature, Transaction};
pub use normalize::normalized_bundle;
pub use signing::{
    address, digest, digests, key, signature_fragment, validate_bundle_signatures,
    validate_signatures,
};
pub use ternary::Error;
pub use validators::{essence_hash, input_signatures, is_bundle, validate_input_signatures};

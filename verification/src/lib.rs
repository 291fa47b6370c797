//! Client-side core of a threshold-encryption protocol.
//!
//! A party without the private key fetches a group public key set, encrypts
//! data against it, and later reconstructs plaintext from partial decryption
//! shares supplied by a service.  This crate holds the two parts of that
//! protocol with algorithmic content, both verified:
//!
//! * the codec layer ([`codec`]): lossless conversion between the
//!   cryptosystem's native objects and the printable wire forms they travel
//!   in;
//! * the share-aggregation engine ([`aggregate`]): deduplication, conflict
//!   detection, threshold checking and combination of decryption shares.
//!
//! Transport (HTTP requests and responses) is plumbing and lives outside this
//! crate; callers hand the functions here plain strings, byte vectors and
//! share lists.

pub mod aggregate;
pub mod bindings;
pub mod codec;
pub mod errors;
pub mod model;

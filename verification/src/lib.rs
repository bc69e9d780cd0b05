//! MAYO post-quantum signatures behind a namespaced signing interface, and an
//! attributable certificate scheme built from individual MAYO signatures.
//!
//! The cryptographic primitives come from the `pq-mayo` crate; this crate
//! frames messages, encodes keys, signatures and certificates, and assembles
//! and checks certificates over an ordered committee of participants.

pub use pq_mayo::{Mayo1, Mayo2, Mayo3, Mayo5, MayoParameter};

mod backend;
pub mod bytes;
pub mod certificate;
pub mod codec;
pub mod generic;
pub mod hex;
pub mod params;
pub mod participants;
pub mod scheme;
pub mod signers;
pub mod varint;

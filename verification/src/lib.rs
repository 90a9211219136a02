//! A streaming SHA-256 implementation, verified against a mathematical model
//! of the hash: a context absorbs input in arbitrary-sized chunks, and
//! finalizing yields the 32-byte digest of everything absorbed, exactly as the
//! model's `digest` function defines it. A separate utility renders a digest
//! as lowercase hexadecimal text.
pub mod hash;
pub mod hex;
pub mod model;

pub use hash::Sha256Ctx;
pub use hex::sha256_to_hex;

//! Vanity key search for bech32-encoded identity keys: a verified
//! checksummed text codec for 32-byte key material, and a search loop
//! that draws fresh keypairs until the encoded public key starts with
//! a requested prefix.

pub mod base32;
pub mod encoding;
pub mod keys;
pub mod search;

pub use encoding::decode;
pub use keys::Keypair;
pub use search::validate_prefix;
pub use search::NostrKeyGenerator;
pub use search::SilentObserver;
pub use search::ValidationError;
pub use search::VanityObserver;
pub use search::search_attempt;

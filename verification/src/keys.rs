//! Key material: fresh keypairs and public-key derivation.
//!
//! Key generation and curve arithmetic come from the secp256k1 library;
//! the library's own types carry the two halves as plain 32-byte
//! vectors, and the derivation is named so that contracts can bind the
//! public half to the secret half.
use vstd::prelude::*;

verus! {

/// The 32-byte x-only public key that the curve derives from a secret
/// scalar. The derivation is a pure function of the scalar; what it
/// computes is the outside library's curve arithmetic, so it is named
/// rather than stated.
pub uninterp spec fn pubkey_of(secret: Seq<u8>) -> Seq<u8>;

/// Whether 32 bytes form a valid secret scalar (nonzero and below the
/// curve order), exactly as the outside library's scalar check accepts
/// them.
pub uninterp spec fn is_valid_scalar(secret: Seq<u8>) -> bool;

/// A keypair: a secret scalar and its derived 32-byte x-only public
/// key.
pub struct Keypair {
    pub secret: Vec<u8>,
    pub public: Vec<u8>,
}

impl Keypair {
    /// The two halves belong together: 32 bytes each, a valid scalar,
    /// and the public half derived from the secret half.
    pub open spec fn wf(&self) -> bool {
        &&& self.secret@.len() == 32
        &&& self.public@.len() == 32
        &&& is_valid_scalar(self.secret@)
        &&& self.public@ == pubkey_of(self.secret@)
    }
}

/// Draws one fresh keypair from the operating system's entropy source.
///
/// Relies on secp256k1's `KeyPair::new` with rand's `OsRng`: it redraws
/// 32 random bytes until they form a valid secret scalar and derives
/// the matching public key; `XOnlyPublicKey::from_keypair` and
/// `KeyPair::secret_bytes` hand back the derived x-only public key and
/// the scalar, 32 bytes each. If the entropy source cannot be read the
/// process aborts rather than produce predictable key material.
#[verifier::external_body]
pub(crate) fn fresh_keypair() -> (r: Keypair)
    ensures
        r.wf(),
{
    let keypair = secp256k1::KeyPair::new(secp256k1::SECP256K1, &mut rand::rngs::OsRng);
    let (xonly, _) = secp256k1::XOnlyPublicKey::from_keypair(&keypair);
    Keypair { secret: keypair.secret_bytes().to_vec(), public: xonly.serialize().to_vec() }
}

/// Re-derives the x-only public key of a secret scalar.
///
/// Relies on secp256k1's `SecretKey::from_slice`, which accepts exactly
/// the 32-byte valid scalars, and on `KeyPair::from_secret_key` and
/// `XOnlyPublicKey::from_keypair`, which derive the same x-only public
/// key as key generation does for the same scalar.
#[verifier::external_body]
pub(crate) fn derive_public(secret: &Vec<u8>) -> (r: Option<Vec<u8>>)
    ensures
        r matches Some(p) ==> secret@.len() == 32 && is_valid_scalar(secret@) && p@ == pubkey_of(
            secret@,
        ) && p@.len() == 32,
        r is None ==> !(secret@.len() == 32 && is_valid_scalar(secret@)),
{
    match secp256k1::SecretKey::from_slice(secret.as_slice()) {
        Ok(sk) => {
            let keypair = secp256k1::KeyPair::from_secret_key(secp256k1::SECP256K1, &sk);
            let (xonly, _) = secp256k1::XOnlyPublicKey::from_keypair(&keypair);
            Some(xonly.serialize().to_vec())
        },
        Err(_) => None,
    }
}

} // verus!

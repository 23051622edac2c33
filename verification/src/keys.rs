//! Ed25519 keys as plain bytes, and the calls that only the signature scheme
//! can answer.

use vstd::prelude::*;

verus! {

/// The number of bytes in a public key.
pub const PUBLIC_KEY_LENGTH: usize = 32;

/// The number of bytes in a secret key.
pub const SECRET_KEY_LENGTH: usize = 32;

/// Whether `public` is the encoding of a point of the curve, as
/// `ed25519_dalek::PublicKey::from_bytes` decides it.
pub uninterp spec fn ed25519_key_valid(public: Seq<u8>) -> bool;

/// The public key that belongs to `secret`, as `ed25519_dalek` derives it.
pub uninterp spec fn ed25519_public_of(secret: Seq<u8>) -> Seq<u8>;

/// The signature that `ed25519_dalek` gives `message` under a key pair.
pub uninterp spec fn ed25519_signature(secret: Seq<u8>, public: Seq<u8>, message: Seq<u8>) -> Seq<
    u8,
>;

/// Whether `ed25519_dalek` accepts `signature` for `message` under `public`.
pub uninterp spec fn ed25519_verifies(public: Seq<u8>, message: Seq<u8>, signature: Seq<u8>) -> bool;

/// The shape that a signature must have before it is looked at any closer: 64
/// bytes, with the three highest bits of the last one clear.
pub open spec fn well_formed_signature(signature: Seq<u8>) -> bool {
    signature.len() == 64 && signature[63] < 32
}

/// Calls `ed25519_dalek::PublicKey::from_bytes` and says whether it succeeded.
/// Claims only that the answer is a function of the bytes, named
/// `ed25519_key_valid`.
#[verifier::external_body]
pub(crate) fn public_key_is_valid(public: &[u8; 32]) -> (r: bool)
    ensures
        r == ed25519_key_valid(public@),
{
    ed25519_dalek::PublicKey::from_bytes(&public[..]).is_ok()
}

/// Calls `ed25519_dalek::Signature::from_bytes` and says whether it succeeded.
/// Claims what its source shows: it accepts 64 bytes whose last byte has its
/// three highest bits clear, and nothing else.
#[verifier::external_body]
pub(crate) fn signature_is_well_formed(signature: &[u8]) -> (r: bool)
    ensures
        r == well_formed_signature(signature@),
{
    ed25519_dalek::Signature::from_bytes(signature).is_ok()
}

/// Derives the public key of `secret` with `ed25519_dalek`'s conversion from
/// `SecretKey` to `PublicKey`. Claims only that the result is a function of
/// the secret, named `ed25519_public_of`.
#[verifier::external_body]
pub(crate) fn public_key_of(secret: &[u8; 32]) -> (r: [u8; 32])
    ensures
        r@ == ed25519_public_of(secret@),
{
    let secret_key = ed25519_dalek::SecretKey::from_bytes(&secret[..]).unwrap();
    ed25519_dalek::PublicKey::from(&secret_key).to_bytes()
}

/// Signs `message` with `ed25519_dalek::Keypair::sign`. Claims that the
/// signature is a function of the three inputs, that it has the shape that
/// `Signature::from_bytes` accepts (the crate passes it through that very
/// function before it returns it), and that it verifies under `public` where
/// `public` is the key that belongs to `secret`.
#[verifier::external_body]
pub(crate) fn sign_detached(secret: &[u8; 32], public: &[u8; 32], message: &[u8]) -> (r: [u8; 64])
    requires
        ed25519_key_valid(public@),
    ensures
        r@ == ed25519_signature(secret@, public@, message@),
        well_formed_signature(r@),
        public@ == ed25519_public_of(secret@) ==> ed25519_verifies(public@, message@, r@),
{
    let key_pair = ed25519_dalek::Keypair {
        secret: ed25519_dalek::SecretKey::from_bytes(&secret[..]).unwrap(),
        public: ed25519_dalek::PublicKey::from_bytes(&public[..]).unwrap(),
    };
    ed25519_dalek::Signer::sign(&key_pair, message).to_bytes()
}

/// Checks `signature` with `ed25519_dalek::PublicKey::verify`. Claims only
/// that the answer is a function of the three inputs, named
/// `ed25519_verifies`.
#[verifier::external_body]
pub(crate) fn verify_detached(public: &[u8; 32], message: &[u8], signature: &[u8]) -> (r: bool)
    requires
        ed25519_key_valid(public@),
        well_formed_signature(signature@),
    ensures
        r == ed25519_verifies(public@, message@, signature@),
{
    let public_key = ed25519_dalek::PublicKey::from_bytes(&public[..]).unwrap();
    let sig = ed25519_dalek::Signature::from_bytes(signature).unwrap();
    ed25519_dalek::Verifier::verify(&public_key, message, &sig).is_ok()
}

/// A public key and, where its holder may sign, the secret key.
#[derive(Debug, Clone, Copy)]
pub struct Keypair {
    pub public: [u8; 32],
    pub secret: Option<[u8; 32]>,
}

impl Keypair {
    /// The key pair can sign, and its public key is the one that belongs to
    /// its secret key.
    pub open spec fn consistent(&self) -> bool {
        self.secret matches Some(secret) && self.public@ == ed25519_public_of(secret@)
    }

    /// The key pair of a secret key.
    pub fn from_secret(secret: [u8; 32]) -> (r: Keypair)
        ensures
            r.secret == Some(secret),
            r.consistent(),
    {
        Keypair { public: public_key_of(&secret), secret: Some(secret) }
    }

    /// A key pair that holds a public key only, and cannot sign.
    pub fn from_public(public: [u8; 32]) -> (r: Keypair)
        ensures
            r.public == public,
            r.secret is None,
    {
        Keypair { public, secret: None }
    }
}

} // verus!

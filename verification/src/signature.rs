use vstd::prelude::*;

verus! {

/// The Ed25519 signature of `message` under the 64-byte secret key.
pub uninterp spec fn ed25519_signature(message: Seq<u8>, secret_key: Seq<u8>) -> Seq<u8>;

/// Whether `signature` is accepted as an Ed25519 signature of `message`
/// under the 32-byte public key.
pub uninterp spec fn ed25519_accepts(
    message: Seq<u8>,
    public_key: Seq<u8>,
    signature: Seq<u8>,
) -> bool;

/// Calls `crypto::ed25519::signature`, which reads the first 64 bytes of
/// the secret key.
///
/// Trusted: the signature depends on the message and the key alone.
#[verifier::external_body]
pub(crate) fn sign_bytes(message: &[u8], secret_key: &[u8]) -> (signature: Vec<u8>)
    requires
        secret_key@.len() == 64,
    ensures
        signature@ == ed25519_signature(message@, secret_key@),
{
    crypto::ed25519::signature(message, secret_key).to_vec()
}

/// Calls `crypto::ed25519::verify`, which reads 32 bytes of the public key
/// and 64 bytes of the signature.
///
/// Trusted: the answer depends on the three byte strings alone.
#[verifier::external_body]
pub(crate) fn accepts_bytes(message: &[u8], public_key: &[u8], signature: &[u8]) -> (ok: bool)
    requires
        public_key@.len() == 32,
        signature@.len() == 64,
    ensures
        ok == ed25519_accepts(message@, public_key@, signature@),
{
    crypto::ed25519::verify(message, public_key, signature)
}

} // verus!

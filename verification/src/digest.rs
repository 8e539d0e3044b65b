use vstd::prelude::*;
use crypto::digest::Digest;
use crypto::sha2::Sha256;

verus! {

/// The SHA-256 digest of `data`, written as lowercase hexadecimal text.
pub uninterp spec fn sha256_hex(data: Seq<u8>) -> Seq<char>;

/// The SHA-256 digest of `data`, as raw bytes.
pub uninterp spec fn sha256_bytes(data: Seq<u8>) -> Seq<u8>;

/// Feeds `data` to a fresh `crypto::sha2::Sha256` and reads the digest with
/// `Digest::result_str`.
///
/// Trusted: the text depends on `data` alone.
#[verifier::external_body]
pub(crate) fn hash_hex(data: &[u8]) -> (text: String)
    ensures
        text@ == sha256_hex(data@),
{
    let mut hasher = Sha256::new();
    hasher.input(data);
    hasher.result_str()
}

/// Feeds `data` to a fresh `crypto::sha2::Sha256` and reads the digest with
/// `Digest::result` into a 32-byte buffer.
///
/// Trusted: the bytes depend on `data` alone.
#[verifier::external_body]
pub(crate) fn hash_bytes(data: &[u8]) -> (out: Vec<u8>)
    ensures
        out@ == sha256_bytes(data@),
{
    let mut hasher = Sha256::new();
    hasher.input(data);
    let mut re: [u8; 32] = [0; 32];
    hasher.result(&mut re);
    re.to_vec()
}

} // verus!

use vstd::prelude::*;

verus! {

#[verifier::external_type_specification]
#[verifier::external_body]
pub struct ExErrorKind(bincode::ErrorKind);

/// What `bincode::serialize` makes of a transaction, given as its three
/// fields in order: the id, the inputs as (txid, vout, script_sig) and the
/// outputs as (value, script_pub_key). `None` where it reports an error.
pub uninterp spec fn transaction_encoding(
    id: Seq<char>,
    vin: Seq<(Seq<char>, i32, Seq<char>)>,
    vout: Seq<(i32, Seq<char>)>,
) -> Option<Seq<u8>>;

/// What `bincode::serialize` makes of the fields a block is hashed over, in
/// order: the previous hash, the Merkle root of the transactions, the
/// timestamp, the difficulty and the nonce. `None` where it reports an error.
pub uninterp spec fn header_encoding(
    prev_block_hash: Seq<char>,
    merkle_root: Seq<u8>,
    timestamp: u128,
    target: usize,
    nonce: i32,
) -> Option<Seq<u8>>;

/// Calls `bincode::serialize` on the tuple of a transaction's fields, which
/// it writes exactly as it writes a struct with these fields.
///
/// Trusted: whether it succeeds, and the bytes if it does, depend on the
/// field values alone.
#[verifier::external_body]
pub(crate) fn encode_transaction_fields(
    id: &String,
    vin: &Vec<(String, i32, String)>,
    vout: &Vec<(i32, String)>,
) -> (encoded: Result<Vec<u8>, bincode::Error>)
    ensures
        match encoded {
            Ok(bytes) => transaction_encoding(id@, vin.deep_view(), vout.deep_view()) == Some(
                bytes@,
            ),
            Err(_) => transaction_encoding(id@, vin.deep_view(), vout.deep_view()) is None,
        },
{
    bincode::serialize(&(id, vin, vout))
}

/// Calls `bincode::serialize` on the tuple of fields a block is hashed over.
///
/// Trusted: whether it succeeds, and the bytes if it does, depend on the
/// field values alone.
#[verifier::external_body]
pub(crate) fn encode_header_fields(
    prev_block_hash: &String,
    merkle_root: &Vec<u8>,
    timestamp: u128,
    target: usize,
    nonce: i32,
) -> (encoded: Result<Vec<u8>, bincode::Error>)
    ensures
        match encoded {
            Ok(bytes) => header_encoding(prev_block_hash@, merkle_root@, timestamp, target, nonce)
                == Some(bytes@),
            Err(_) => header_encoding(prev_block_hash@, merkle_root@, timestamp, target, nonce)
                is None,
        },
{
    bincode::serialize(&(prev_block_hash, merkle_root, timestamp, target, nonce))
}

} // verus!

use vstd::prelude::*;
use vstd::utf8::encode_utf8;
use crate::codec::{header_encoding, transaction_encoding};
use crate::digest::sha256_hex;
use crate::error::ChainError;
use crate::merkle::tree_root;

verus! {

/// A reference to an output of an earlier transaction, with the proof that unlocks it.
pub struct InputModel {
    pub txid: Seq<char>,
    pub vout: i32,
    pub script_sig: Seq<char>,
}

/// An amount, locked to whoever can present `script_pub_key`.
pub struct OutputModel {
    pub value: i32,
    pub script_pub_key: Seq<char>,
}

/// A transfer of value.
pub struct TransactionModel {
    pub id: Seq<char>,
    pub vin: Seq<InputModel>,
    pub vout: Seq<OutputModel>,
}

/// The amount a coinbase transaction issues.
pub const REWARD: i32 = 100;

/// A transaction that issues new value: one input, which refers to nothing.
pub open spec fn is_coinbase(tx: TransactionModel) -> bool {
    &&& tx.vin.len() == 1
    &&& tx.vin[0].txid.len() == 0
    &&& tx.vin[0].vout == -1
}

/// The inputs as the tuples of their fields.
pub open spec fn input_fields(vin: Seq<InputModel>) -> Seq<(Seq<char>, i32, Seq<char>)> {
    Seq::new(vin.len(), |i: int| (vin[i].txid, vin[i].vout, vin[i].script_sig))
}

/// The outputs as the tuples of their fields.
pub open spec fn output_fields(vout: Seq<OutputModel>) -> Seq<(i32, Seq<char>)> {
    Seq::new(vout.len(), |i: int| (vout[i].value, vout[i].script_pub_key))
}

/// The canonical bytes of a transaction, if it can be encoded.
pub open spec fn encoding(tx: TransactionModel) -> Option<Seq<u8>> {
    transaction_encoding(tx.id, input_fields(tx.vin), output_fields(tx.vout))
}

/// The same transaction with an empty id.
pub open spec fn without_id(tx: TransactionModel) -> TransactionModel {
    TransactionModel { id: Seq::empty(), vin: tx.vin, vout: tx.vout }
}

/// The hash that identifies a transaction: the SHA-256 digest, as
/// hexadecimal text, of its canonical bytes with the id left empty.
pub open spec fn content_hash(tx: TransactionModel) -> Option<Seq<char>> {
    match encoding(without_id(tx)) {
        Some(bytes) => Some(sha256_hex(bytes)),
        None => None,
    }
}

/// The memo a coinbase carries when none is given.
pub open spec fn default_memo(to: Seq<char>) -> Seq<char> {
    "Reward to '"@ + to + "' "@
}

/// The coinbase transaction for `to` with the given memo, before its id is set.
pub open spec fn coinbase_body(to: Seq<char>, data: Seq<char>) -> TransactionModel {
    TransactionModel {
        id: Seq::empty(),
        vin: seq![
            InputModel {
                txid: Seq::empty(),
                vout: -1i32,
                script_sig: if data.len() == 0 {
                    default_memo(to)
                } else {
                    data
                },
            },
        ],
        vout: seq![OutputModel { value: REWARD, script_pub_key: to }],
    }
}

/// A sealed container of transactions.
pub struct BlockModel {
    pub timestamp: u128,
    pub transactions: Seq<TransactionModel>,
    pub prev_block_hash: Seq<char>,
    pub hash: Seq<char>,
    pub height: i32,
    pub nonce: i32,
}

/// How many leading hexadecimal digits of a block's digest must be `'0'`.
pub const TARGET_HEXT: usize = 4;

/// The proof-of-work rule on a digest: its first `TARGET_HEXT` characters are `'0'`.
pub open spec fn meets_target(digest: Seq<char>) -> bool {
    &&& digest.len() >= TARGET_HEXT
    &&& forall|i: int| 0 <= i < TARGET_HEXT ==> digest[i] == '0'
}

/// Whether every transaction of the list has a content hash.
pub open spec fn hashable(txs: Seq<TransactionModel>) -> bool {
    forall|i: int| 0 <= i < txs.len() ==> (#[trigger] content_hash(txs[i])) is Some
}

/// The leaves of a block's Merkle tree: for each transaction, the bytes of
/// its content hash as text.
pub open spec fn merkle_leaves(txs: Seq<TransactionModel>) -> Seq<Seq<u8>> {
    Seq::new(txs.len(), |i: int| encode_utf8(content_hash(txs[i])->0))
}

/// The Merkle root that commits to the transactions of a block.
pub open spec fn merkle_root(txs: Seq<TransactionModel>) -> Option<Seq<u8>> {
    if hashable(txs) {
        Some(tree_root(merkle_leaves(txs)))
    } else {
        None
    }
}

/// The bytes a block is hashed over: its previous hash, the Merkle root of
/// its transactions, its timestamp, the difficulty and its nonce.
pub open spec fn digest_input(block: BlockModel) -> Option<Seq<u8>> {
    match merkle_root(block.transactions) {
        Some(root) => header_encoding(
            block.prev_block_hash,
            root,
            block.timestamp,
            TARGET_HEXT,
            block.nonce,
        ),
        None => None,
    }
}

/// The SHA-256 digest of a block, as hexadecimal text.
pub open spec fn block_digest(block: BlockModel) -> Option<Seq<char>> {
    match digest_input(block) {
        Some(bytes) => Some(sha256_hex(bytes)),
        None => None,
    }
}

/// Whether the block's digest meets the target; `None` where the block
/// has no digest.
pub open spec fn proof_of_work(block: BlockModel) -> Option<bool> {
    match block_digest(block) {
        Some(digest) => Some(meets_target(digest)),
        None => None,
    }
}

/// A block is sealed when its stored hash is its digest and meets the target.
pub open spec fn sealed(block: BlockModel) -> bool {
    &&& block_digest(block) == Some(block.hash)
    &&& meets_target(block.hash)
}

/// The same block with another nonce.
pub open spec fn with_nonce(block: BlockModel, nonce: i32) -> BlockModel {
    BlockModel { nonce, ..block }
}

/// The nonce search, counting up from the block's own nonce, stops at `n`:
/// every nonce before `n` gives a digest that misses the target, and `n`
/// does not.
pub open spec fn search_stops_at(block: BlockModel, n: i32) -> bool {
    &&& block.nonce <= n
    &&& proof_of_work(with_nonce(block, n)) != Some(false)
    &&& forall|m: i32|
        block.nonce <= m < n ==> #[trigger] proof_of_work(with_nonce(block, m)) == Some(false)
}

/// No nonce from the block's own up to the largest gives a digest that
/// meets the target.
pub open spec fn search_exhausted(block: BlockModel) -> bool {
    forall|m: i32|
        block.nonce <= m ==> #[trigger] proof_of_work(with_nonce(block, m)) == Some(false)
}

/// The nonce search from `start` ends in the error `e`: in
/// `SerializationFailure` when it stops at a nonce for which the block has
/// no digest, in `InvalidProofOfWork` when no nonce meets the target.
pub open spec fn search_fails_with(start: BlockModel, e: ChainError) -> bool {
    match e {
        ChainError::SerializationFailure => exists|n: i32|
            search_stops_at(start, n) && proof_of_work(with_nonce(start, n)) is None,
        ChainError::InvalidProofOfWork => search_exhausted(start),
        _ => false,
    }
}

/// A block as it stands before the nonce search: no hash yet, nonce 0.
pub open spec fn unsealed(
    timestamp: u128,
    transactions: Seq<TransactionModel>,
    prev_block_hash: Seq<char>,
    height: i32,
) -> BlockModel {
    BlockModel { timestamp, transactions, prev_block_hash, hash: Seq::empty(), height, nonce: 0 }
}

/// What the nonce search makes of `start` when it stops at a nonce that
/// meets the target: that nonce, and the digest as the hash.
pub open spec fn mined_from(start: BlockModel, block: BlockModel) -> bool {
    &&& search_stops_at(start, block.nonce)
    &&& block == BlockModel { nonce: block.nonce, hash: block.hash, ..start }
    &&& sealed(block)
}

/// A block that the nonce search has sealed passes validation.
pub proof fn lemma_mined_block_validates(start: BlockModel, block: BlockModel)
    requires
        mined_from(start, block),
    ensures
        proof_of_work(block) == Some(true),
        sealed(block),
{
}

/// A coinbase transaction, whatever its receiver and memo, has the shape
/// that marks it as one.
pub proof fn lemma_coinbase_is_coinbase(tx: TransactionModel, to: Seq<char>, data: Seq<char>)
    requires
        without_id(tx) == coinbase_body(to, data),
    ensures
        is_coinbase(tx),
{
    assert(tx.vin == coinbase_body(to, data).vin);
}

/// The memo of the coinbase transaction in a genesis block.
pub open spec fn genesis_memo() -> Seq<char> {
    "GENESIS_COINBASE_DATA"@
}

/// The coinbase transaction of a genesis block that rewards `address`.
pub open spec fn genesis_coinbase(address: Seq<char>) -> TransactionModel {
    let body = coinbase_body(address, genesis_memo());
    TransactionModel { id: content_hash(body)->0, vin: body.vin, vout: body.vout }
}

/// The same blocks in the opposite order.
pub open spec fn backwards<A>(items: Seq<A>) -> Seq<A> {
    Seq::new(items.len(), |i: int| items[items.len() - 1 - i])
}

/// The blocks, genesis first, form one chain that ends in the block with
/// hash `tip`: the first follows no block, each other block names the hash
/// of the one before it, and each block's height is its distance from the
/// first.
pub open spec fn well_shaped(chain: Seq<BlockModel>, tip: Seq<char>) -> bool {
    &&& 0 < chain.len() <= i32::MAX + 1
    &&& chain[0].prev_block_hash.len() == 0
    &&& chain.last().hash == tip
    &&& forall|i: int| 0 <= i < chain.len() ==> (#[trigger] chain[i]).height == i
    &&& forall|i: int|
        0 < i < chain.len() ==> (#[trigger] chain[i]).prev_block_hash == chain[i - 1].hash
}

/// The hash that the blocks read so far, tip first, lead to: the previous
/// hash of the last one read, or the stored tip while none was read.
pub open spec fn leads_to(last: Option<Seq<char>>, stored: Seq<BlockModel>) -> Seq<char> {
    if stored.len() > 0 {
        stored.last().prev_block_hash
    } else {
        match last {
            Some(tip) => tip,
            None => Seq::empty(),
        }
    }
}

/// One of the blocks has this hash.
pub open spec fn has_hash(stored: Seq<BlockModel>, hash: Seq<char>) -> bool {
    exists|i: int| 0 <= i < stored.len() && (#[trigger] stored[i]).hash == hash
}

/// Every block of the chain is sealed.
pub open spec fn all_sealed(chain: Seq<BlockModel>) -> bool {
    forall|i: int| 0 <= i < chain.len() ==> sealed(#[trigger] chain[i])
}

/// Block `i` is the first of the chain that is not sealed.
pub open spec fn first_unsealed(chain: Seq<BlockModel>, i: int) -> bool {
    &&& 0 <= i < chain.len()
    &&& !sealed(chain[i])
    &&& forall|j: int| 0 <= j < i ==> sealed(#[trigger] chain[j])
}

/// Checking the seals of the chain, genesis first, ends in the error `e`:
/// at the first block that is not sealed, in `SerializationFailure` when
/// that block has no digest and in `InvalidProofOfWork` when it has one.
pub open spec fn seals_fail_with(chain: Seq<BlockModel>, e: ChainError) -> bool {
    exists|i: int|
        #[trigger] first_unsealed(chain, i) && e == if block_digest(chain[i]) is None {
            ChainError::SerializationFailure
        } else {
            ChainError::InvalidProofOfWork
        }
}

/// What a ledger holds at any time: a well-shaped chain of sealed blocks.
pub open spec fn valid_chain(chain: Seq<BlockModel>) -> bool {
    &&& chain.len() > 0
    &&& well_shaped(chain, chain.last().hash)
    &&& all_sealed(chain)
}

/// The transaction at position `t` of block `h` is the one a search for
/// `id` from the tip finds: it has that id, no block above `h` holds a
/// transaction with it, and none stands before it in block `h`.
pub open spec fn found_at(chain: Seq<BlockModel>, id: Seq<char>, h: int, t: int) -> bool {
    &&& 0 <= h < chain.len()
    &&& 0 <= t < chain[h].transactions.len()
    &&& chain[h].transactions[t].id == id
    &&& forall|k: int| 0 <= k < t ==> (#[trigger] chain[h].transactions[k]).id != id
    &&& forall|g: int, k: int|
        h < g < chain.len() && 0 <= k < chain[g].transactions.len() ==> (
        #[trigger] chain[g].transactions[k]).id != id
}

/// `tx` is the transaction that a search for `id` from the tip finds.
pub open spec fn resolves(chain: Seq<BlockModel>, id: Seq<char>, tx: TransactionModel) -> bool {
    exists|h: int, t: int| found_at(chain, id, h, t) && tx == chain[h].transactions[t]
}

/// No block of the chain holds a transaction with this id.
pub open spec fn absent(chain: Seq<BlockModel>, id: Seq<char>) -> bool {
    forall|g: int, k: int|
        0 <= g < chain.len() && 0 <= k < chain[g].transactions.len() ==> (
        #[trigger] chain[g].transactions[k]).id != id
}

/// A chain is walked from its tip: the walk visits one block for each
/// height up to the tip's, and the last block it visits follows no block.
pub proof fn lemma_walk_reaches_genesis(chain: Seq<BlockModel>)
    requires
        valid_chain(chain),
    ensures
        backwards(chain).len() == chain.last().height + 1,
        backwards(chain).first() == chain.last(),
        backwards(chain).last().prev_block_hash.len() == 0,
        forall|i: int|
            0 <= i < chain.len() - 1 ==> (#[trigger] backwards(chain)[i]).prev_block_hash
                == backwards(chain)[i + 1].hash,
        forall|i: int|
            0 <= i < chain.len() - 1 ==> (#[trigger] backwards(chain)[i]).prev_block_hash.len()
                > 0,
{
    assert forall|i: int| 0 <= i < chain.len() - 1 implies (
    #[trigger] backwards(chain)[i]).prev_block_hash.len() > 0 by {
        let j = chain.len() - 1 - i;
        assert(chain[j].prev_block_hash == chain[j - 1].hash);
        assert(sealed(chain[j - 1]));
    }
}

} // verus!

use vstd::prelude::*;
use vstd::string::*;
use crate::clock::{now, since_epoch, whole_millis};
use crate::codec::encode_header_fields;
use crate::digest::hash_hex;
use crate::error::ChainError;
use crate::merkle::build_root;
use crate::model::{
    block_digest, content_hash, digest_input, meets_target, merkle_leaves, merkle_root,
    mined_from, proof_of_work, sealed, search_fails_with, search_stops_at, unsealed, with_nonce,
    BlockModel, TARGET_HEXT,
};
use crate::transaction::Transaction;

verus! {

/// A block of the chain.
#[derive(Debug)]
pub struct Block {
    timestamp: u128,
    transactions: Vec<Transaction>,
    prev_block_hash: String,
    hash: String,
    height: i32,
    nonce: i32,
}

impl View for Block {
    type V = BlockModel;

    closed spec fn view(&self) -> BlockModel {
        BlockModel {
            timestamp: self.timestamp,
            transactions: self.transactions.deep_view(),
            prev_block_hash: self.prev_block_hash@,
            hash: self.hash@,
            height: self.height,
            nonce: self.nonce,
        }
    }
}

impl DeepView for Block {
    type V = BlockModel;

    open spec fn deep_view(&self) -> BlockModel {
        self@
    }
}

impl Clone for Block {
    fn clone(&self) -> (copy: Self)
        ensures
            copy@ == self@,
    {
        let copy = Block {
            timestamp: self.timestamp,
            transactions: self.transactions.clone(),
            prev_block_hash: self.prev_block_hash.clone(),
            hash: self.hash.clone(),
            height: self.height,
            nonce: self.nonce,
        };
        assert(copy.transactions.deep_view() =~= self.transactions.deep_view());
        copy
    }
}

/// Whether a digest, as hexadecimal text, meets the proof-of-work target.
pub fn hash_meets_target(digest: &str) -> (ok: bool)
    ensures
        ok == meets_target(digest@),
{
    if digest.unicode_len() < TARGET_HEXT {
        return false;
    }
    let mut i: usize = 0;
    while i < TARGET_HEXT
        invariant
            i <= TARGET_HEXT,
            digest@.len() >= TARGET_HEXT,
            forall|j: int| 0 <= j < i ==> digest@[j] == '0',
        decreases TARGET_HEXT - i,
    {
        if digest.get_char(i) != '0' {
            return false;
        }
        i = i + 1;
    }
    true
}

impl Block {
    /// Puts a block together from its six fields, as they are; nothing is checked.
    pub fn from_parts(
        timestamp: u128,
        transactions: Vec<Transaction>,
        prev_block_hash: String,
        hash: String,
        height: i32,
        nonce: i32,
    ) -> (block: Block)
        ensures
            block@ == (BlockModel {
                timestamp,
                transactions: transactions.deep_view(),
                prev_block_hash: prev_block_hash@,
                hash: hash@,
                height,
                nonce,
            }),
    {
        Block { timestamp, transactions, prev_block_hash, hash, height, nonce }
    }

    pub fn get_height(&self) -> (height: i32)
        ensures
            height == self@.height,
    {
        self.height
    }

    pub fn get_transaction(&self) -> (transactions: &Vec<Transaction>)
        ensures
            transactions.deep_view() == self@.transactions,
    {
        &self.transactions
    }

    pub fn get_prev_hash(&self) -> (hash: String)
        ensures
            hash@ == self@.prev_block_hash,
    {
        self.prev_block_hash.clone()
    }

    pub fn get_hash(&self) -> (hash: String)
        ensures
            hash@ == self@.hash,
    {
        self.hash.clone()
    }

    pub fn get_timestamp(&self) -> (timestamp: u128)
        ensures
            timestamp == self@.timestamp,
    {
        self.timestamp
    }

    pub fn get_nonce(&self) -> (nonce: i32)
        ensures
            nonce == self@.nonce,
    {
        self.nonce
    }

    /// The Merkle root over the content hashes of the block's transactions.
    pub fn hash_transactions(&self) -> (root: Result<Vec<u8>, ChainError>)
        ensures
            match root {
                Ok(bytes) => merkle_root(self@.transactions) == Some(bytes@),
                Err(e) => {
                    &&& e == ChainError::SerializationFailure
                    &&& merkle_root(self@.transactions) is None
                },
            },
    {
        let mut leaves: Vec<Vec<u8>> = Vec::new();
        let mut i: usize = 0;
        while i < self.transactions.len()
            invariant
                i <= self.transactions@.len(),
                leaves@.len() == i,
                forall|j: int|
                    0 <= j < i ==> (#[trigger] content_hash(self.transactions@[j]@)) is Some,
                forall|j: int|
                    0 <= j < i ==> (#[trigger] leaves@[j])@ == merkle_leaves(
                        self.transactions.deep_view(),
                    )[j],
            decreases self.transactions@.len() - i,
        {
            match self.transactions[i].hash() {
                Ok(text) => {
                    leaves.push(text.as_str().as_bytes_vec());
                },
                Err(e) => {
                    assert(content_hash(self.transactions.deep_view()[i as int]) is None);
                    return Err(e);
                },
            }
            i = i + 1;
        }
        proof {
            assert forall|j: int| 0 <= j < self@.transactions.len() implies (
            #[trigger] content_hash(self@.transactions[j])) is Some by {
                assert(self@.transactions[j] == self.transactions@[j]@);
            }
            assert forall|j: int| 0 <= j < leaves@.len() implies leaves.deep_view()[j]
                == merkle_leaves(self@.transactions)[j] by {
                assert(leaves@[j].deep_view() =~= leaves@[j]@);
            }
            assert(leaves.deep_view() =~= merkle_leaves(self@.transactions));
        }
        Ok(build_root(&leaves))
    }

    /// The bytes the block is hashed over.
    pub fn prepare_hash_data(&self) -> (data: Result<Vec<u8>, ChainError>)
        ensures
            match data {
                Ok(bytes) => digest_input(self@) == Some(bytes@),
                Err(e) => e == ChainError::SerializationFailure && digest_input(self@) is None,
            },
    {
        match self.hash_transactions() {
            Ok(root) => {
                match encode_header_fields(
                    &self.prev_block_hash,
                    &root,
                    self.timestamp,
                    TARGET_HEXT,
                    self.nonce,
                ) {
                    Ok(bytes) => Ok(bytes),
                    Err(_) => Err(ChainError::SerializationFailure),
                }
            },
            Err(e) => Err(e),
        }
    }

    /// A new block on top of the block with hash `prev_block_hash`, stamped
    /// with the current time and sealed by the nonce search.
    pub fn new_block(data: Vec<Transaction>, prev_block_hash: String, height: i32) -> (made:
        Result<Block, ChainError>)
        ensures
            match made {
                Ok(block) => mined_from(
                    unsealed(block@.timestamp, data.deep_view(), prev_block_hash@, height),
                    block@,
                ),
                Err(e) => {
                    ||| e == ChainError::ClockFailure
                    ||| exists|timestamp: u128|
                        search_fails_with(
                            #[trigger] unsealed(
                                timestamp,
                                data.deep_view(),
                                prev_block_hash@,
                                height,
                            ),
                            e,
                        )
                },
            },
    {
        let reading = now();
        match since_epoch(&reading) {
            Ok(span) => {
                let timestamp: u128 = whole_millis(&span);
                Block::new_block_at(data, prev_block_hash, height, timestamp)
            },
            Err(_) => Err(ChainError::ClockFailure),
        }
    }

    /// The first block of a chain: it holds `coinbase` alone, follows no
    /// block, and has height 0.
    pub fn new_genesis_block(coinbase: Transaction) -> (made: Result<Block, ChainError>)
        ensures
            match made {
                Ok(block) => mined_from(
                    unsealed(block@.timestamp, seq![coinbase@], Seq::empty(), 0),
                    block@,
                ),
                Err(e) => {
                    ||| e == ChainError::ClockFailure
                    ||| exists|timestamp: u128|
                        search_fails_with(
                            #[trigger] unsealed(timestamp, seq![coinbase@], Seq::empty(), 0),
                            e,
                        )
                },
            },
    {
        let data: Vec<Transaction> = vec![coinbase];
        assert(data.deep_view() =~= seq![coinbase@]);
        Block::new_block(data, String::new(), 0)
    }

    /// A new block with the given timestamp, sealed by the nonce search from 0.
    ///
    /// Succeeds exactly when the search stops at a nonce whose digest meets
    /// the target. It fails with `SerializationFailure` when it stops at a
    /// nonce for which the block has no digest, and with
    /// `InvalidProofOfWork` when no nonce meets the target.
    pub fn new_block_at(
        data: Vec<Transaction>,
        prev_block_hash: String,
        height: i32,
        timestamp: u128,
    ) -> (made: Result<Block, ChainError>)
        ensures
            match made {
                Ok(block) => mined_from(
                    unsealed(timestamp, data.deep_view(), prev_block_hash@, height),
                    block@,
                ),
                Err(e) => search_fails_with(
                    unsealed(timestamp, data.deep_view(), prev_block_hash@, height),
                    e,
                ),
            },
    {
        let mut block = Block {
            timestamp,
            transactions: data,
            prev_block_hash,
            hash: String::new(),
            height,
            nonce: 0,
        };
        assert(block@ == unsealed(timestamp, data.deep_view(), prev_block_hash@, height));
        match block.run_proof_of_work() {
            Ok(()) => Ok(block),
            Err(e) => Err(e),
        }
    }

    /// Searches nonces upward from the block's own until the digest meets
    /// the target, then stores that nonce and the digest as the hash. On
    /// failure the block is left as it was.
    pub fn run_proof_of_work(&mut self) -> (done: Result<(), ChainError>)
        ensures
            match done {
                Ok(()) => mined_from(old(self)@, final(self)@),
                Err(e) => final(self)@ == old(self)@ && search_fails_with(old(self)@, e),
            },
    {
        let ghost start = self@;
        let root: Vec<u8> = match self.hash_transactions() {
            Ok(root) => root,
            Err(e) => {
                assert(search_stops_at(start, start.nonce) && proof_of_work(
                    with_nonce(start, start.nonce),
                ) is None);
                return Err(e);
            },
        };
        let mut nonce: i32 = self.nonce;
        loop
            invariant
                self@ == start,
                old(self)@ == start,
                start.nonce <= nonce,
                merkle_root(start.transactions) == Some(root@),
                forall|m: i32|
                    start.nonce <= m < nonce ==> #[trigger] proof_of_work(with_nonce(start, m))
                        == Some(false),
            decreases i32::MAX - nonce,
        {
            match encode_header_fields(
                &self.prev_block_hash,
                &root,
                self.timestamp,
                TARGET_HEXT,
                nonce,
            ) {
                Ok(bytes) => {
                    let digest: String = hash_hex(bytes.as_slice());
                    assert(block_digest(with_nonce(start, nonce)) == Some(digest@));
                    if hash_meets_target(digest.as_str()) {
                        self.nonce = nonce;
                        self.hash = digest;
                        assert(search_stops_at(start, nonce));
                        assert(digest_input(self@) == digest_input(with_nonce(start, nonce)));
                        return Ok(());
                    }
                    assert(proof_of_work(with_nonce(start, nonce)) == Some(false));
                },
                Err(_) => {
                    assert(search_stops_at(start, nonce) && proof_of_work(
                        with_nonce(start, nonce),
                    ) is None);
                    return Err(ChainError::SerializationFailure);
                },
            }
            if nonce == i32::MAX {
                return Err(ChainError::InvalidProofOfWork);
            }
            nonce = nonce + 1;
        }
    }

    /// Whether the stored hash is the block's digest and meets the target.
    pub fn is_sealed(&self) -> (checked: Result<bool, ChainError>)
        ensures
            match checked {
                Ok(ok) => block_digest(self@) is Some && ok == sealed(self@),
                Err(e) => e == ChainError::SerializationFailure && block_digest(self@) is None,
            },
    {
        match self.prepare_hash_data() {
            Ok(bytes) => {
                let digest: String = hash_hex(bytes.as_slice());
                Ok(digest == self.hash && hash_meets_target(digest.as_str()))
            },
            Err(e) => Err(e),
        }
    }

    /// Recomputes the block's digest from its fields and tells whether it
    /// meets the target.
    pub fn validate(&self) -> (valid: Result<bool, ChainError>)
        ensures
            match valid {
                Ok(ok) => proof_of_work(self@) == Some(ok),
                Err(e) => e == ChainError::SerializationFailure && proof_of_work(self@) is None,
            },
    {
        match self.prepare_hash_data() {
            Ok(bytes) => {
                let digest: String = hash_hex(bytes.as_slice());
                Ok(hash_meets_target(digest.as_str()))
            },
            Err(e) => Err(e),
        }
    }
}

} // verus!

use vstd::prelude::*;
use vstd::string::*;
use crate::block::Block;
use crate::clock::{now, since_epoch, whole_millis};
use crate::error::ChainError;
use crate::model::{
    absent, all_sealed, backwards, coinbase_body, content_hash, first_unsealed, found_at,
    genesis_coinbase, genesis_memo, has_hash, leads_to, mined_from, resolves, sealed,
    seals_fail_with, search_fails_with, unsealed, valid_chain, well_shaped, BlockModel,
};
use crate::transaction::Transaction;

verus! {

/// The ledger: the blocks from the genesis block to the tip, and the tip's hash.
#[derive(Debug)]
pub struct Blockchain {
    current_hash: String,
    blocks: Vec<Block>,
}

/// A walk over a ledger, from the tip back to the genesis block.
pub struct BlockchainIter<'a> {
    current_hash: String,
    bc: &'a Blockchain,
    left: usize,
}

impl View for Blockchain {
    type V = Seq<BlockModel>;

    /// The blocks, genesis first.
    closed spec fn view(&self) -> Seq<BlockModel> {
        self.blocks.deep_view()
    }
}

/// Making the genesis block for `address`, stamped `timestamp`, ends in
/// the error `e`: in `SerializationFailure` when the coinbase transaction
/// has no content hash, and otherwise as the nonce search does.
pub open spec fn genesis_fails_with(address: Seq<char>, timestamp: u128, e: ChainError) -> bool {
    if content_hash(coinbase_body(address, genesis_memo())) is None {
        e == ChainError::SerializationFailure
    } else {
        search_fails_with(
            unsealed(timestamp, seq![genesis_coinbase(address)], Seq::empty(), 0),
            e,
        )
    }
}

/// The text of the stored tip; empty where there is none.
pub open spec fn stored_tip(last: Option<String>) -> Option<Seq<char>> {
    match last {
        Some(tip) => Some(tip@),
        None => None,
    }
}

fn same_text(a: &String, b: &String) -> (same: bool)
    ensures
        same == (a@ == b@),
{
    *a == *b
}

/// Whether the blocks, genesis first, form one chain that ends in `tip`.
fn shape_holds(blocks: &Vec<Block>, tip: &String) -> (ok: bool)
    ensures
        ok == well_shaped(blocks.deep_view(), tip@),
{
    let ghost chain = blocks.deep_view();
    let n: usize = blocks.len();
    if n == 0 || n - 1 > i32::MAX as usize {
        return false;
    }
    if !blocks[0].get_prev_hash().as_str().is_empty() {
        assert(chain[0] == blocks@[0]@);
        return false;
    }
    if !same_text(&blocks[n - 1].get_hash(), tip) {
        assert(chain.last() == blocks@[n - 1]@);
        return false;
    }
    let mut i: usize = 0;
    while i < n
        invariant
            n == blocks@.len(),
            chain == blocks.deep_view(),
            0 < n <= i32::MAX + 1,
            i <= n,
            forall|j: int| 0 <= j < i ==> (#[trigger] chain[j]).height == j,
            forall|j: int| 0 < j < i ==> (#[trigger] chain[j]).prev_block_hash == chain[j - 1].hash,
        decreases n - i,
    {
        if blocks[i].get_height() != i as i32 {
            assert(chain[i as int] == blocks@[i as int]@);
            return false;
        }
        if i > 0 && !same_text(&blocks[i].get_prev_hash(), &blocks[i - 1].get_hash()) {
            assert(chain[i as int] == blocks@[i as int]@);
            assert(chain[i - 1] == blocks@[i - 1]@);
            return false;
        }
        assert(chain[i as int] == blocks@[i as int]@);
        assert(i > 0 ==> chain[i - 1] == blocks@[i - 1]@);
        i = i + 1;
    }
    assert(chain[0] == blocks@[0]@);
    assert(chain.last() == blocks@[n - 1]@);
    true
}

/// The same blocks in the opposite order.
fn turned_round(stored: Vec<Block>) -> (blocks: Vec<Block>)
    ensures
        blocks.deep_view() == backwards(stored.deep_view()),
{
    let ghost given = stored.deep_view();
    let mut rest: Vec<Block> = stored;
    let mut blocks: Vec<Block> = Vec::new();
    while rest.len() > 0
        invariant
            rest@.len() <= given.len(),
            rest.deep_view() == given.subrange(0, rest@.len() as int),
            blocks@.len() == given.len() - rest@.len(),
            forall|j: int|
                0 <= j < blocks@.len() ==> (#[trigger] blocks@[j])@ == given[given.len() - 1 - j],
        decreases rest@.len(),
    {
        let ghost before = rest.deep_view();
        let block: Block = rest.pop().unwrap();
        proof {
            assert(block@ == before[before.len() - 1]);
            assert(rest.deep_view() =~= given.subrange(0, rest@.len() as int));
        }
        blocks.push(block);
    }
    assert(blocks.deep_view() =~= backwards(given));
    blocks
}

/// Checks the seal of every block, in order.
fn seals_hold(blocks: &Vec<Block>) -> (checked: Result<(), ChainError>)
    ensures
        match checked {
            Ok(()) => all_sealed(blocks.deep_view()),
            Err(e) => seals_fail_with(blocks.deep_view(), e),
        },
{
    let mut i: usize = 0;
    while i < blocks.len()
        invariant
            i <= blocks@.len(),
            forall|j: int| 0 <= j < i ==> sealed(#[trigger] blocks.deep_view()[j]),
        decreases blocks@.len() - i,
    {
        assert(blocks.deep_view()[i as int] == blocks@[i as int]@);
        match blocks[i].is_sealed() {
            Ok(ok) => {
                if !ok {
                    assert(first_unsealed(blocks.deep_view(), i as int));
                    return Err(ChainError::InvalidProofOfWork);
                }
            },
            Err(e) => {
                assert(first_unsealed(blocks.deep_view(), i as int));
                return Err(e);
            },
        }
        i = i + 1;
    }
    Ok(())
}

impl Blockchain {
    /// The hash of the tip.
    pub closed spec fn tip_hash(&self) -> Seq<char> {
        self.current_hash@
    }

    /// What every ledger satisfies: its blocks form a chain of sealed
    /// blocks, and the tip's hash is that of the last one.
    pub open spec fn wf(&self) -> bool {
        &&& valid_chain(self@)
        &&& self.tip_hash() == self@.last().hash
    }

    /// Opens a ledger from what a store holds: the hash kept as the tip,
    /// if any, and the blocks in the order in which they are met from the
    /// tip back to the genesis block.
    ///
    /// Fails with `UninitializedLedger` when there is no tip, with
    /// `BrokenChain` when the blocks do not form one chain that ends in the
    /// tip, and otherwise at the first block, from the genesis block on,
    /// that is not sealed: with `SerializationFailure` when that block has
    /// no digest, with `InvalidProofOfWork` when it has one.
    pub fn new(last: Option<String>, stored: Vec<Block>) -> (opened: Result<Blockchain, ChainError>)
        ensures
            match opened {
                Ok(chain) => {
                    &&& last is Some
                    &&& chain.wf()
                    &&& chain@ == backwards(stored.deep_view())
                    &&& chain.tip_hash() == last->0@
                },
                Err(e) => {
                    let chain = backwards(stored.deep_view());
                    if last is None {
                        e == ChainError::UninitializedLedger
                    } else if !well_shaped(chain, last->0@) {
                        e == ChainError::BrokenChain
                    } else {
                        seals_fail_with(chain, e)
                    }
                },
            },
    {
        let tip: String = match last {
            Some(tip) => tip,
            None => {
                return Err(ChainError::UninitializedLedger);
            },
        };
        let blocks: Vec<Block> = turned_round(stored);
        if !shape_holds(&blocks, &tip) {
            return Err(ChainError::BrokenChain);
        }
        match seals_hold(&blocks) {
            Ok(()) => {},
            Err(e) => {
                return Err(e);
            },
        }
        Ok(Blockchain { current_hash: tip, blocks })
    }

    /// A new ledger whose genesis block, stamped with the current time,
    /// issues the reward to `address`.
    pub fn create_blockchain(address: String) -> (created: Result<Blockchain, ChainError>)
        ensures
            match created {
                Ok(chain) => {
                    &&& chain.wf()
                    &&& chain@.len() == 1
                    &&& content_hash(coinbase_body(address@, genesis_memo())) is Some
                    &&& mined_from(
                        unsealed(
                            chain@[0].timestamp,
                            seq![genesis_coinbase(address@)],
                            Seq::empty(),
                            0,
                        ),
                        chain@[0],
                    )
                },
                Err(e) => {
                    ||| e == ChainError::ClockFailure
                    ||| exists|timestamp: u128| #[trigger] genesis_fails_with(address@, timestamp, e)
                },
            },
    {
        let reading = now();
        match since_epoch(&reading) {
            Ok(span) => {
                let timestamp: u128 = whole_millis(&span);
                Blockchain::create_blockchain_at(address, timestamp)
            },
            Err(_) => Err(ChainError::ClockFailure),
        }
    }

    /// A new ledger whose genesis block, stamped `timestamp`, issues the
    /// reward to `address`.
    ///
    /// Fails with `SerializationFailure` when the coinbase transaction has
    /// no content hash; otherwise as the nonce search does.
    pub fn create_blockchain_at(address: String, timestamp: u128) -> (created: Result<
        Blockchain,
        ChainError,
    >)
        ensures
            match created {
                Ok(chain) => {
                    &&& chain.wf()
                    &&& chain@.len() == 1
                    &&& content_hash(coinbase_body(address@, genesis_memo())) is Some
                    &&& mined_from(
                        unsealed(timestamp, seq![genesis_coinbase(address@)], Seq::empty(), 0),
                        chain@[0],
                    )
                },
                Err(e) => genesis_fails_with(address@, timestamp, e),
            },
    {
        let ghost to = address@;
        let cbtx: Transaction = match Transaction::new_coinbase(
            address,
            String::from_str("GENESIS_COINBASE_DATA"),
        ) {
            Ok(tx) => tx,
            Err(e) => {
                return Err(e);
            },
        };
        assert(cbtx@ == genesis_coinbase(to));
        let data: Vec<Transaction> = vec![cbtx];
        assert(data.deep_view() =~= seq![genesis_coinbase(to)]);
        let genesis: Block = match Block::new_block_at(data, String::new(), 0, timestamp) {
            Ok(block) => block,
            Err(e) => {
                return Err(e);
            },
        };
        let current_hash: String = genesis.get_hash();
        let blocks: Vec<Block> = vec![genesis];
        assert(blocks.deep_view() =~= seq![genesis@]);
        Ok(Blockchain { current_hash, blocks })
    }

    /// Seals a block of `transactions` on top of the tip, stamped with the
    /// current time, appends it and returns it. On failure the ledger is
    /// left as it was.
    pub fn add_block(&mut self, transactions: Vec<Transaction>) -> (added: Result<
        Block,
        ChainError,
    >)
        requires
            old(self).wf(),
        ensures
            final(self).wf(),
            match added {
                Ok(block) => {
                    &&& final(self)@ == old(self)@.push(block@)
                    &&& mined_from(
                        unsealed(
                            block@.timestamp,
                            transactions.deep_view(),
                            old(self).tip_hash(),
                            old(self)@.len() as i32,
                        ),
                        block@,
                    )
                },
                Err(e) => {
                    &&& final(self)@ == old(self)@
                    &&& final(self).tip_hash() == old(self).tip_hash()
                    &&& e == ChainError::HeightOverflow <==> old(self)@.len() == i32::MAX + 1
                    &&& {
                        ||| e == ChainError::HeightOverflow
                        ||| e == ChainError::ClockFailure
                        ||| exists|timestamp: u128|
                            search_fails_with(
                                #[trigger] unsealed(
                                    timestamp,
                                    transactions.deep_view(),
                                    old(self).tip_hash(),
                                    old(self)@.len() as i32,
                                ),
                                e,
                            )
                    }
                },
            },
    {
        if self.blocks.len() - 1 >= i32::MAX as usize {
            return Err(ChainError::HeightOverflow);
        }
        let reading = now();
        match since_epoch(&reading) {
            Ok(span) => {
                let timestamp: u128 = whole_millis(&span);
                self.add_block_at(transactions, timestamp)
            },
            Err(_) => Err(ChainError::ClockFailure),
        }
    }

    /// Seals a block of `transactions` on top of the tip, stamped
    /// `timestamp`, appends it and returns it. On failure the ledger is
    /// left as it was.
    ///
    /// Fails with `HeightOverflow` when the tip already has the largest
    /// height; otherwise as the nonce search does.
    pub fn add_block_at(&mut self, transactions: Vec<Transaction>, timestamp: u128) -> (added:
        Result<Block, ChainError>)
        requires
            old(self).wf(),
        ensures
            final(self).wf(),
            match added {
                Ok(block) => {
                    &&& final(self)@ == old(self)@.push(block@)
                    &&& mined_from(
                        unsealed(
                            timestamp,
                            transactions.deep_view(),
                            old(self).tip_hash(),
                            old(self)@.len() as i32,
                        ),
                        block@,
                    )
                },
                Err(e) => {
                    let start = unsealed(
                        timestamp,
                        transactions.deep_view(),
                        old(self).tip_hash(),
                        old(self)@.len() as i32,
                    );
                    &&& final(self)@ == old(self)@
                    &&& final(self).tip_hash() == old(self).tip_hash()
                    &&& e == ChainError::HeightOverflow <==> old(self)@.len() == i32::MAX + 1
                    &&& e != ChainError::HeightOverflow ==> search_fails_with(start, e)
                },
            },
    {
        let count: usize = self.blocks.len();
        if count - 1 >= i32::MAX as usize {
            return Err(ChainError::HeightOverflow);
        }
        let height: i32 = count as i32;
        let block: Block = match Block::new_block_at(
            transactions,
            self.current_hash.clone(),
            height,
            timestamp,
        ) {
            Ok(block) => block,
            Err(e) => {
                return Err(e);
            },
        };
        let ghost before = self@;
        self.blocks.push(block.clone());
        self.current_hash = block.get_hash();
        proof {
            assert(self@ =~= before.push(block@));
            assert forall|i: int| 0 <= i < self@.len() implies sealed(#[trigger] self@[i]) by {
                if i < before.len() {
                    assert(self@[i] == before[i]);
                }
            }
            assert forall|i: int| 0 <= i < self@.len() implies (#[trigger] self@[i]).height
                == i by {
                if i < before.len() {
                    assert(self@[i] == before[i]);
                }
            }
            assert forall|i: int| 0 < i < self@.len() implies (
            #[trigger] self@[i]).prev_block_hash == self@[i - 1].hash by {
                if i < before.len() {
                    assert(self@[i] == before[i]);
                }
                assert(self@[i - 1] == before[i - 1]);
            }
            assert(self@[0] == before[0]);
        }
        Ok(block)
    }

    /// A walk over the blocks, from the tip back to the genesis block.
    pub fn iter(&self) -> (walk: BlockchainIter<'_>)
        requires
            self.wf(),
        ensures
            walk.wf(),
            walk.chain() == self@,
            walk.remaining() == backwards(self@),
            walk.remaining().len() == self@.last().height + 1,
            walk.remaining().last().prev_block_hash.len() == 0,
    {
        let walk = BlockchainIter {
            current_hash: self.current_hash.clone(),
            bc: self,
            left: self.blocks.len(),
        };
        assert(walk.remaining() =~= backwards(self@));
        walk
    }

    /// The transaction with this id that a walk from the tip meets first.
    pub fn find_transaction(&self, id: &str) -> (found: Result<Transaction, ChainError>)
        requires
            self.wf(),
        ensures
            match found {
                Ok(tx) => resolves(self@, id@, tx@),
                Err(e) => e == ChainError::TransactionNotFound && absent(self@, id@),
            },
    {
        let wanted: String = id.to_owned();
        let mut walk = self.iter();
        loop
            invariant
                walk.wf(),
                walk.chain() == self@,
                wanted@ == id@,
                forall|g: int, k: int|
                    walk.remaining().len() <= g < self@.len() && 0 <= k
                        < self@[g].transactions.len() ==> (#[trigger] self@[g].transactions[k]).id
                        != id@,
            decreases walk.remaining().len(),
        {
            let ghost h = walk.remaining().len() - 1;
            let block: Block = match walk.next() {
                Some(block) => block,
                None => {
                    return Err(ChainError::TransactionNotFound);
                },
            };
            let txs: &Vec<Transaction> = block.get_transaction();
            let mut t: usize = 0;
            while t < txs.len()
                invariant
                    t <= txs@.len(),
                    wanted@ == id@,
                    0 <= h < self@.len(),
                    txs.deep_view() == self@[h].transactions,
                    forall|k: int| 0 <= k < t ==> (#[trigger] self@[h].transactions[k]).id
                        != id@,
                    forall|g: int, k: int|
                        h < g < self@.len() && 0 <= k < self@[g].transactions.len() ==> (
                        #[trigger] self@[g].transactions[k]).id != id@,
                decreases txs@.len() - t,
            {
                assert(txs.deep_view()[t as int] == txs@[t as int]@);
                if same_text(&txs[t].id, &wanted) {
                    assert(found_at(self@, id@, h, t as int));
                    return Ok(txs[t].clone());
                }
                t = t + 1;
            }
        }
    }

    /// The transactions that the inputs of `tx` refer to, one for each
    /// input and in the inputs' order, each found as `find_transaction`
    /// finds it.
    #[allow(non_snake_case)]
    pub fn get_prev_TXs(&self, tx: &Transaction) -> (found: Result<Vec<Transaction>, ChainError>)
        requires
            self.wf(),
        ensures
            match found {
                Ok(prev) => {
                    &&& prev@.len() == tx@.vin.len()
                    &&& forall|k: int|
                        0 <= k < prev@.len() ==> resolves(
                            self@,
                            tx@.vin[k].txid,
                            (#[trigger] prev@[k])@,
                        )
                },
                Err(e) => {
                    &&& e == ChainError::TransactionNotFound
                    &&& exists|k: int|
                        0 <= k < tx@.vin.len() && absent(self@, (#[trigger] tx@.vin[k]).txid)
                },
            },
    {
        let mut prev: Vec<Transaction> = Vec::new();
        let mut k: usize = 0;
        while k < tx.vin.len()
            invariant
                self.wf(),
                k <= tx.vin@.len(),
                prev@.len() == k,
                forall|j: int|
                    0 <= j < k ==> resolves(self@, tx@.vin[j].txid, (#[trigger] prev@[j])@),
            decreases tx.vin@.len() - k,
        {
            assert(tx@.vin[k as int] == tx.vin@[k as int]@);
            match self.find_transaction(tx.vin[k].txid.as_str()) {
                Ok(found) => {
                    prev.push(found);
                },
                Err(e) => {
                    return Err(e);
                },
            }
            k = k + 1;
        }
        Ok(prev)
    }

    /// While a ledger is read from a store, tip first: the hash of the block
    /// to read next, given the stored tip and the blocks read so far. `None`
    /// when the genesis block was read, when there is no tip, or when the
    /// hash is that of a block that was read already.
    pub fn next_key(last: &Option<String>, stored: &Vec<Block>) -> (key: Option<String>)
        ensures
            match key {
                Some(hash) => {
                    &&& hash@ == leads_to(stored_tip(*last), stored.deep_view())
                    &&& hash@.len() > 0
                    &&& !has_hash(stored.deep_view(), hash@)
                },
                None => {
                    let hash = leads_to(stored_tip(*last), stored.deep_view());
                    hash.len() == 0 || has_hash(stored.deep_view(), hash)
                },
            },
    {
        let wanted: String = if stored.len() > 0 {
            assert(stored.deep_view().last() == stored@[stored@.len() - 1]@);
            stored[stored.len() - 1].get_prev_hash()
        } else {
            match last {
                Some(tip) => tip.clone(),
                None => String::new(),
            }
        };
        if wanted.as_str().is_empty() {
            return None;
        }
        let mut i: usize = 0;
        while i < stored.len()
            invariant
                i <= stored@.len(),
                wanted@ == leads_to(stored_tip(*last), stored.deep_view()),
                wanted@.len() > 0,
                forall|j: int| 0 <= j < i ==> (#[trigger] stored.deep_view()[j]).hash != wanted@,
            decreases stored@.len() - i,
        {
            assert(stored.deep_view()[i as int] == stored@[i as int]@);
            if same_text(&stored[i].get_hash(), &wanted) {
                assert(has_hash(stored.deep_view(), wanted@));
                return None;
            }
            i = i + 1;
        }
        Some(wanted)
    }

    /// The hash of the tip.
    pub fn get_current_hash(&self) -> (hash: String)
        ensures
            hash@ == self.tip_hash(),
    {
        self.current_hash.clone()
    }

    /// The blocks, genesis first.
    pub fn get_blocks(&self) -> (blocks: &Vec<Block>)
        ensures
            blocks.deep_view() == self@,
    {
        &self.blocks
    }
}

impl Clone for Blockchain {
    fn clone(&self) -> (copy: Self)
        ensures
            copy@ == self@,
            copy.tip_hash() == self.tip_hash(),
    {
        let copy = Blockchain {
            current_hash: self.current_hash.clone(),
            blocks: self.blocks.clone(),
        };
        assert(copy.blocks.deep_view() =~= self.blocks.deep_view());
        copy
    }
}

impl<'a> BlockchainIter<'a> {
    /// The blocks of the ledger that is walked, genesis first.
    pub closed spec fn chain(&self) -> Seq<BlockModel> {
        self.bc@
    }

    /// The blocks still to come, in the order in which they will be visited.
    pub closed spec fn remaining(&self) -> Seq<BlockModel> {
        Seq::new(self.left as nat, |i: int| self.bc@[self.left - 1 - i])
    }

    /// The hash of the block that comes next; empty when none is left.
    pub closed spec fn next_hash(&self) -> Seq<char> {
        self.current_hash@
    }

    /// What every walk satisfies: it runs over a well-formed ledger, what is
    /// left of it is the lower part of the chain, and it knows the hash of
    /// the block that comes next.
    pub closed spec fn wf(&self) -> bool {
        &&& self.bc.wf()
        &&& self.left <= self.bc@.len()
        &&& self.current_hash@ == if self.left == 0 {
            Seq::<char>::empty()
        } else {
            self.bc@[self.left - 1].hash
        }
    }

    /// The next block of the walk; `None` once the genesis block has been
    /// visited.
    pub fn next(&mut self) -> (block: Option<Block>)
        requires
            old(self).wf(),
        ensures
            final(self).wf(),
            final(self).chain() == old(self).chain(),
            match block {
                Some(b) => {
                    &&& old(self).remaining().len() > 0
                    &&& b@ == old(self).remaining()[0]
                    &&& b@.hash == old(self).next_hash()
                    &&& final(self).remaining() == old(self).remaining().drop_first()
                    &&& final(self).next_hash() == b@.prev_block_hash
                },
                None => {
                    &&& old(self).remaining().len() == 0
                    &&& final(self).remaining() == old(self).remaining()
                },
            },
    {
        if self.left == 0 {
            return None;
        }
        let index: usize = self.left - 1;
        let block: Block = self.bc.blocks[index].clone();
        proof {
            let chain = self.bc@;
            assert(chain[index as int] == self.bc.blocks@[index as int]@);
            assert(valid_chain(chain));
            if index > 0 {
                assert(chain[index as int].prev_block_hash == chain[index - 1].hash);
            } else {
                assert(chain[0].prev_block_hash =~= Seq::<char>::empty());
            }
        }
        self.current_hash = block.get_prev_hash();
        self.left = index;
        assert(self.remaining() =~= old(self).remaining().drop_first());
        Some(block)
    }
}

} // verus!

use vstd::prelude::*;
use crate::block::Block;
use crate::blockchain::Blockchain;
use crate::model::{backwards, is_coinbase, resolves, BlockModel, TransactionModel};
use crate::transaction::{TXOutput, Transaction};
use crate::unspent::{
    apply_block, first_occurrences, ids_of, lemma_filter_agree, lemma_filter_push,
    lemma_step_equivalence, lemma_unspent_have_source, lemma_utxo_range_front, listed, made_by,
    outputs_of, owned_by, spent_by, spent_from, tx_outputs, txids, unspent_in, utxo_of,
    utxo_range, UtxoModel,
};

verus! {

/// An unspent output, with the id of the transaction that made it and its
/// position among that transaction's outputs.
#[derive(Debug)]
pub struct UnspentOutput {
    pub txid: String,
    pub vout: usize,
    pub output: TXOutput,
}

impl View for UnspentOutput {
    type V = UtxoModel;

    open spec fn view(&self) -> UtxoModel {
        UtxoModel { txid: self.txid@, index: self.vout as int, output: self.output@ }
    }
}

impl DeepView for UnspentOutput {
    type V = UtxoModel;

    open spec fn deep_view(&self) -> UtxoModel {
        self@
    }
}

impl Clone for UnspentOutput {
    fn clone(&self) -> (copy: Self)
        ensures
            copy == *self,
    {
        UnspentOutput { txid: self.txid.clone(), vout: self.vout, output: self.output.clone() }
    }
}

/// Whether the list names output `index` of transaction `txid`.
fn is_listed(list: &Vec<(String, i32)>, txid: &String, index: usize) -> (found: bool)
    ensures
        found == listed(list.deep_view(), txid@, index as int),
{
    let mut j: usize = 0;
    while j < list.len()
        invariant
            j <= list@.len(),
            forall|i: int|
                0 <= i < j ==> !((#[trigger] list.deep_view()[i]).0 == txid@
                    && list.deep_view()[i].1 == index as int),
        decreases list@.len() - j,
    {
        assert(list.deep_view()[j as int] == (list@[j as int].0@, list@[j as int].1));
        if list[j].1 >= 0 && list[j].1 as usize == index && list[j].0 == *txid {
            return true;
        }
        j = j + 1;
    }
    false
}

/// Adds to the list what the inputs of the block's transactions refer to,
/// coinbase transactions left out.
fn record_spends(block: &Block, list: &mut Vec<(String, i32)>)
    ensures
        forall|txid: Seq<char>, index: int|
            #![trigger listed(final(list).deep_view(), txid, index)]
            listed(final(list).deep_view(), txid, index) <==> (listed(
                old(list).deep_view(),
                txid,
                index,
            ) || spent_by(block@, txid, index)),
{
    let txs: &Vec<Transaction> = block.get_transaction();
    let ghost model = block@;
    let ghost before = list.deep_view();
    let mut t: usize = 0;
    while t < txs.len()
        invariant
            t <= txs@.len(),
            txs.deep_view() == model.transactions,
            forall|txid: Seq<char>, index: int|
                #![trigger listed(list.deep_view(), txid, index)]
                listed(list.deep_view(), txid, index) <==> (listed(before, txid, index)
                    || spent_before(model, t as int, 0, txid, index)),
        decreases txs@.len() - t,
    {
        let tx: &Transaction = &txs[t];
        assert(txs.deep_view()[t as int] == tx@);
        if !tx.is_coinbase() {
            let mut k: usize = 0;
            while k < tx.vin.len()
                invariant
                    t < model.transactions.len(),
                    k <= tx.vin@.len(),
                    model.transactions[t as int] == tx@,
                    !is_coinbase(tx@),
                    forall|txid: Seq<char>, index: int|
                        #![trigger listed(list.deep_view(), txid, index)]
                        listed(list.deep_view(), txid, index) <==> (listed(before, txid, index)
                            || spent_before(model, t as int, k as int, txid, index)),
                decreases tx.vin@.len() - k,
            {
                let ghost shorter = list.deep_view();
                let ghost input = tx@.vin[k as int];
                assert(tx@.vin[k as int] == tx.vin@[k as int]@);
                list.push((tx.vin[k].txid.clone(), tx.vin[k].vout));
                proof {
                    let entry = (input.txid, input.vout);
                    assert(list.deep_view() =~= shorter.push(entry));
                    assert forall|txid: Seq<char>, index: int|
                        #![trigger listed(list.deep_view(), txid, index)]
                        listed(list.deep_view(), txid, index) <==> (listed(before, txid, index)
                            || spent_before(model, t as int, k + 1, txid, index)) by {
                        assert(listed(shorter, txid, index) <==> (listed(before, txid, index)
                            || spent_before(model, t as int, k as int, txid, index)));
                        lemma_listed_push(shorter, entry, txid, index);
                        lemma_spent_before_step(model, t as int, k as int, txid, index);
                    }
                }
                k = k + 1;
            }
            proof {
                assert forall|txid: Seq<char>, index: int|
                    #![trigger listed(list.deep_view(), txid, index)]
                    spent_before(model, t as int, tx.vin@.len() as int, txid, index)
                        == spent_before(model, t + 1, 0, txid, index) by {
                    lemma_spent_before_next(model, t as int, txid, index);
                }
            }
        } else {
            proof {
                assert forall|txid: Seq<char>, index: int|
                    #![trigger listed(list.deep_view(), txid, index)]
                    spent_before(model, t as int, 0, txid, index) == spent_before(
                        model,
                        t + 1,
                        0,
                        txid,
                        index,
                    ) by {
                    lemma_spent_before_skip(model, t as int, txid, index);
                }
            }
        }
        t = t + 1;
    }
    proof {
        assert forall|txid: Seq<char>, index: int|
            #![trigger listed(list.deep_view(), txid, index)]
            spent_before(model, txs@.len() as int, 0, txid, index) == spent_by(
                model,
                txid,
                index,
            ) by {
            lemma_spent_before_all(model, txid, index);
        }
    }
}

/// The outputs of the block's transactions that the list does not name.
fn unlisted_outputs(block: &Block, list: &Vec<(String, i32)>) -> (found: Vec<UnspentOutput>)
    ensures
        found.deep_view() == outputs_of(block@.transactions).filter(
            |e: UtxoModel| !listed(list.deep_view(), e.txid, e.index),
        ),
{
    let txs: &Vec<Transaction> = block.get_transaction();
    let ghost all = block@.transactions;
    let ghost keep = |e: UtxoModel| !listed(list.deep_view(), e.txid, e.index);
    let mut found: Vec<UnspentOutput> = Vec::new();
    let mut t: usize = 0;
    proof {
        reveal(Seq::filter);
        assert(all.take(0) =~= Seq::<TransactionModel>::empty());
        assert(found.deep_view() =~= outputs_of(all.take(0)).filter(keep));
    }
    while t < txs.len()
        invariant
            t <= txs@.len(),
            txs.deep_view() == all,
            keep == |e: UtxoModel| !listed(list.deep_view(), e.txid, e.index),
            found.deep_view() == outputs_of(all.take(t as int)).filter(keep),
        decreases txs@.len() - t,
    {
        let tx: &Transaction = &txs[t];
        let ghost done = found.deep_view();
        let ghost outs = tx_outputs(tx@);
        assert(txs.deep_view()[t as int] == tx@);
        let mut i: usize = 0;
        proof {
            reveal(Seq::filter);
            assert(outs.take(0) =~= Seq::<UtxoModel>::empty());
            assert(found.deep_view() =~= done + outs.take(0).filter(keep));
        }
        while i < tx.vout.len()
            invariant
                i <= tx.vout@.len(),
                outs == tx_outputs(tx@),
                keep == |e: UtxoModel| !listed(list.deep_view(), e.txid, e.index),
                found.deep_view() == done + outs.take(i as int).filter(keep),
            decreases tx.vout@.len() - i,
        {
            let ghost shorter = found.deep_view();
            let ghost entry = outs[i as int];
            assert(tx@.vout[i as int] == tx.vout@[i as int]@);
            proof {
                assert(outs.take(i + 1) =~= outs.take(i as int).push(entry));
                lemma_filter_push(outs.take(i as int), entry, keep);
            }
            if !is_listed(list, &tx.id, i) {
                found.push(
                    UnspentOutput { txid: tx.id.clone(), vout: i, output: tx.vout[i].clone() },
                );
                assert(found.deep_view() =~= shorter.push(entry));
                assert(found.deep_view() =~= done + outs.take(i + 1).filter(keep));
            }
            i = i + 1;
        }
        proof {
            assert(outs.take(tx.vout@.len() as int) =~= outs);
            assert(all.take(t + 1).drop_last() =~= all.take(t as int));
            assert(all.take(t + 1).last() == tx@);
            Seq::filter_distributes_over_add(outputs_of(all.take(t as int)), outs, keep);
        }
        t = t + 1;
    }
    assert(all.take(txs@.len() as int) =~= all);
    found
}

impl Blockchain {
    /// All unspent outputs of the chain, oldest first: an output of a block
    /// is among them if and only if no input in that block or in a later one
    /// refers to it.
    #[allow(non_snake_case)]
    pub fn find_UTXO(&self) -> (utxos: Vec<UnspentOutput>)
        requires
            self.wf(),
        ensures
            utxos.deep_view() == utxo_of(self@),
    {
        let ghost chain = self@;
        let mut spent: Vec<(String, i32)> = Vec::new();
        let mut utxos: Vec<UnspentOutput> = Vec::new();
        let mut walk = self.iter();
        assert(utxos.deep_view() =~= utxo_range(chain, chain.len() as int, chain.len() as int));
        loop
            invariant
                walk.wf(),
                walk.chain() == chain,
                chain == self@,
                walk.remaining().len() <= chain.len(),
                walk.remaining() == backwards(chain).skip(chain.len() - walk.remaining().len()),
                forall|txid: Seq<char>, index: int|
                    #![trigger listed(spent.deep_view(), txid, index)]
                    listed(spent.deep_view(), txid, index) <==> spent_from(
                        chain,
                        walk.remaining().len() as int,
                        txid,
                        index,
                    ),
                utxos.deep_view() == utxo_range(
                    chain,
                    walk.remaining().len() as int,
                    chain.len() as int,
                ),
            decreases walk.remaining().len(),
        {
            let ghost lo = walk.remaining().len() as int;
            let ghost older = spent.deep_view();
            let ghost later = utxos.deep_view();
            let block: Block = match walk.next() {
                Some(block) => block,
                None => {
                    return utxos;
                },
            };
            let ghost h = lo - 1;
            assert(block@ == chain[h]);
            record_spends(&block, &mut spent);
            let mut part: Vec<UnspentOutput> = unlisted_outputs(&block, &spent);
            proof {
                assert forall|txid: Seq<char>, index: int|
                    #![trigger listed(spent.deep_view(), txid, index)]
                    listed(spent.deep_view(), txid, index) <==> spent_from(
                        chain,
                        h,
                        txid,
                        index,
                    ) by {
                    assert(listed(older, txid, index) <==> spent_from(chain, lo, txid, index));
                    lemma_spent_from_front(chain, h, txid, index);
                }
                let outs = outputs_of(chain[h].transactions);
                let by_list = |e: UtxoModel| !listed(spent.deep_view(), e.txid, e.index);
                let by_chain = |e: UtxoModel| !spent_from(chain, h, e.txid, e.index);
                assert forall|i: int| 0 <= i < outs.len() implies by_list(#[trigger] outs[i])
                    == by_chain(outs[i]) by {
                    let e = outs[i];
                    assert(listed(spent.deep_view(), e.txid, e.index) <==> spent_from(
                        chain,
                        h,
                        e.txid,
                        e.index,
                    ));
                }
                lemma_filter_agree(outs, by_list, by_chain);
                assert(part.deep_view() == unspent_in(chain, h));
                lemma_utxo_range_front(chain, h, chain.len() as int);
            }
            part.append(&mut utxos);
            assert(part.deep_view() =~= unspent_in(chain, h) + later);
            utxos = part;
        }
    }
}

/// The unspent outputs of one owner.
#[derive(Debug)]
pub struct TXOutputs {
    pub outputs: Vec<TXOutput>,
}

/// The index of unspent outputs, kept beside the ledger it is derived from.
#[derive(Debug)]
pub struct UTXOSet {
    pub blockchain: Blockchain,
    pub utxos: Vec<UnspentOutput>,
}

fn holds_text(list: &Vec<String>, text: &String) -> (found: bool)
    ensures
        found == list.deep_view().contains(text@),
{
    let mut j: usize = 0;
    while j < list.len()
        invariant
            j <= list@.len(),
            forall|i: int| 0 <= i < j ==> list.deep_view()[i] != text@,
        decreases list@.len() - j,
    {
        assert(list.deep_view()[j as int] == list@[j as int]@);
        if list[j] == *text {
            return true;
        }
        j = j + 1;
    }
    false
}

impl UTXOSet {
    /// The entries of the index, in order.
    pub open spec fn index(&self) -> Seq<UtxoModel> {
        self.utxos.deep_view()
    }

    /// The index holds exactly the unspent outputs of the ledger.
    pub open spec fn is_current(&self) -> bool {
        self.index() == utxo_of(self.blockchain@)
    }

    /// An empty index beside `blockchain`.
    pub fn new(blockchain: Blockchain) -> (set: UTXOSet)
        ensures
            set.blockchain == blockchain,
            set.index() == Seq::<UtxoModel>::empty(),
    {
        let set = UTXOSet { blockchain, utxos: Vec::new() };
        assert(set.utxos.deep_view() =~= Seq::<UtxoModel>::empty());
        set
    }

    /// The index with the given entries beside `blockchain`, as when both
    /// were read from a store.
    pub fn with_index(blockchain: Blockchain, utxos: Vec<UnspentOutput>) -> (set: UTXOSet)
        ensures
            set.blockchain == blockchain,
            set.index() == utxos.deep_view(),
    {
        UTXOSet { blockchain, utxos }
    }

    /// The entries of the index, in order.
    pub fn get_index(&self) -> (utxos: &Vec<UnspentOutput>)
        ensures
            utxos.deep_view() == self.index(),
    {
        &self.utxos
    }

    /// Rebuilds the index from the whole ledger.
    pub fn reindex(&mut self)
        requires
            old(self).blockchain.wf(),
        ensures
            final(self).blockchain == old(self).blockchain,
            final(self).index() == utxo_of(old(self).blockchain@),
            final(self).is_current(),
    {
        self.utxos = self.blockchain.find_UTXO();
    }

    /// Brings the index up to date with one more block: the entries that
    /// the block's inputs refer to leave, and the block's own outputs
    /// arrive, but for those that the block spends itself.
    ///
    /// If the index held the unspent outputs of the ledger without its
    /// last block, and `block` is that block, the index is current again.
    pub fn update(&mut self, block: &Block)
        ensures
            final(self).blockchain == old(self).blockchain,
            final(self).index() == apply_block(old(self).index(), block@),
            old(self).blockchain@.len() > 0 && block@ == old(self).blockchain@.last() && old(
                self,
            ).index() == utxo_of(old(self).blockchain@.drop_last()) ==> final(self).is_current(),
    {
        let ghost index = self.index();
        let ghost fresh = |e: UtxoModel| !spent_by(block@, e.txid, e.index);
        let mut spent: Vec<(String, i32)> = Vec::new();
        record_spends(block, &mut spent);
        let ghost by_list = |e: UtxoModel| !listed(spent.deep_view(), e.txid, e.index);
        let mut kept: Vec<UnspentOutput> = Vec::new();
        let mut i: usize = 0;
        proof {
            reveal(Seq::filter);
            assert(index.take(0) =~= Seq::<UtxoModel>::empty());
            assert(kept.deep_view() =~= index.take(0).filter(by_list));
        }
        while i < self.utxos.len()
            invariant
                i <= self.utxos@.len(),
                self.utxos.deep_view() == index,
                *self == *old(self),
                by_list == |e: UtxoModel| !listed(spent.deep_view(), e.txid, e.index),
                kept.deep_view() == index.take(i as int).filter(by_list),
            decreases self.utxos@.len() - i,
        {
            let entry: &UnspentOutput = &self.utxos[i];
            let ghost shorter = kept.deep_view();
            proof {
                assert(index[i as int] == entry@);
                assert(index.take(i + 1) =~= index.take(i as int).push(entry@));
                lemma_filter_push(index.take(i as int), entry@, by_list);
            }
            if !is_listed(&spent, &entry.txid, entry.vout) {
                kept.push(entry.clone());
                assert(kept.deep_view() =~= shorter.push(entry@));
            }
            i = i + 1;
        }
        let mut arrived: Vec<UnspentOutput> = unlisted_outputs(block, &spent);
        proof {
            assert(index.take(self.utxos@.len() as int) =~= index);
            let outs = outputs_of(block@.transactions);
            assert forall|j: int| 0 <= j < index.len() implies by_list(#[trigger] index[j])
                == fresh(index[j]) by {
                let e = index[j];
                assert(listed(spent.deep_view(), e.txid, e.index) <==> spent_by(
                    block@,
                    e.txid,
                    e.index,
                ));
            }
            lemma_filter_agree(index, by_list, fresh);
            assert forall|j: int| 0 <= j < outs.len() implies by_list(#[trigger] outs[j])
                == fresh(outs[j]) by {
                let e = outs[j];
                assert(listed(spent.deep_view(), e.txid, e.index) <==> spent_by(
                    block@,
                    e.txid,
                    e.index,
                ));
            }
            lemma_filter_agree(outs, by_list, fresh);
        }
        let ghost first = kept.deep_view();
        let ghost second = arrived.deep_view();
        kept.append(&mut arrived);
        assert(kept.deep_view() =~= first + second);
        self.utxos = kept;
        proof {
            let chain = old(self).blockchain@;
            if chain.len() > 0 && block@ == chain.last() && index == utxo_of(chain.drop_last()) {
                lemma_step_equivalence(chain.drop_last(), block@);
                assert(chain =~= chain.drop_last().push(block@));
            }
        }
    }

    /// The entries of the index that are locked to `owner`, in the order of
    /// the index.
    pub fn find_spendable_outputs(&self, owner: &str) -> (found: Vec<UnspentOutput>)
        ensures
            found.deep_view() == owned_by(self.index(), owner@),
    {
        let ghost index = self.index();
        let ghost mine = |e: UtxoModel| e.output.script_pub_key == owner@;
        let mut found: Vec<UnspentOutput> = Vec::new();
        let mut i: usize = 0;
        proof {
            reveal(Seq::filter);
            assert(index.take(0) =~= Seq::<UtxoModel>::empty());
            assert(found.deep_view() =~= index.take(0).filter(mine));
        }
        while i < self.utxos.len()
            invariant
                i <= self.utxos@.len(),
                self.utxos.deep_view() == index,
                mine == |e: UtxoModel| e.output.script_pub_key == owner@,
                found.deep_view() == index.take(i as int).filter(mine),
            decreases self.utxos@.len() - i,
        {
            let entry: &UnspentOutput = &self.utxos[i];
            let ghost shorter = found.deep_view();
            proof {
                assert(index[i as int] == entry@);
                assert(index.take(i + 1) =~= index.take(i as int).push(entry@));
                lemma_filter_push(index.take(i as int), entry@, mine);
            }
            if entry.output.can_be_unlock_with(owner) {
                found.push(entry.clone());
                assert(found.deep_view() =~= shorter.push(entry@));
            }
            i = i + 1;
        }
        assert(index.take(self.utxos@.len() as int) =~= index);
        found
    }

    /// The outputs that are locked to `owner`, in the order of the index.
    pub fn find_utxo(&self, owner: &str) -> (found: TXOutputs)
        ensures
            found.outputs.deep_view() == owned_by(self.index(), owner@).map_values(
                |e: UtxoModel| e.output,
            ),
    {
        let entries: Vec<UnspentOutput> = self.find_spendable_outputs(owner);
        let mut outputs: Vec<TXOutput> = Vec::new();
        let mut i: usize = 0;
        while i < entries.len()
            invariant
                i <= entries@.len(),
                outputs@.len() == i,
                forall|j: int| 0 <= j < i ==> (#[trigger] outputs@[j])@ == entries@[j]@.output,
            decreases entries@.len() - i,
        {
            outputs.push(entries[i].output.clone());
            i = i + 1;
        }
        assert(outputs.deep_view() =~= entries.deep_view().map_values(
            |e: UtxoModel| e.output,
        ));
        TXOutputs { outputs }
    }

    /// The ids of the transactions that have an entry in the index, each
    /// once, in the order in which the index first names them.
    pub fn transaction_ids(&self) -> (seen: Vec<String>)
        ensures
            seen.deep_view() == first_occurrences(txids(self.index())),
            seen.deep_view().no_duplicates(),
            seen.deep_view().to_set() == ids_of(self.index()),
            seen@.len() == ids_of(self.index()).len(),
    {
        let ghost index = self.index();
        let ghost ids = txids(index);
        let mut seen: Vec<String> = Vec::new();
        let mut i: usize = 0;
        proof {
            assert(ids.take(0) =~= Seq::<Seq<char>>::empty());
            assert(seen.deep_view() =~= first_occurrences(ids.take(0)));
            assert(seen.deep_view().to_set() =~= ids.take(0).to_set());
        }
        while i < self.utxos.len()
            invariant
                i <= self.utxos@.len(),
                self.utxos.deep_view() == index,
                ids == txids(index),
                seen@.len() <= i,
                seen.deep_view() == first_occurrences(ids.take(i as int)),
                seen.deep_view().no_duplicates(),
                seen.deep_view().to_set() == ids.take(i as int).to_set(),
            decreases self.utxos@.len() - i,
        {
            let entry: &UnspentOutput = &self.utxos[i];
            let ghost before = seen.deep_view();
            proof {
                assert(index[i as int] == entry@);
                assert(ids[i as int] == entry.txid@);
                assert(ids.take(i + 1) =~= ids.take(i as int).push(entry.txid@));
                assert(ids.take(i + 1).drop_last() =~= ids.take(i as int));
                lemma_to_set_push(ids.take(i as int), entry.txid@);
            }
            if !holds_text(&seen, &entry.txid) {
                seen.push(entry.txid.clone());
                proof {
                    assert(seen.deep_view() =~= before.push(entry.txid@));
                    lemma_to_set_push(before, entry.txid@);
                }
            } else {
                assert(before.to_set().insert(entry.txid@) =~= before.to_set());
            }
            i = i + 1;
        }
        proof {
            assert(ids.take(self.utxos@.len() as int) =~= ids);
            seen.deep_view().unique_seq_to_set();
        }
        seen
    }

    /// How many transactions have an entry in the index.
    pub fn count_transactions(&self) -> (count: usize)
        ensures
            count == ids_of(self.index()).len(),
    {
        self.transaction_ids().len()
    }

    /// The entries of the index that belong to the transaction `txid`, in
    /// the order of the index.
    pub fn entries_of(&self, txid: &str) -> (found: Vec<UnspentOutput>)
        ensures
            found.deep_view() == made_by(self.index(), txid@),
    {
        let ghost index = self.index();
        let ghost same = |e: UtxoModel| e.txid == txid@;
        let wanted: String = txid.to_owned();
        let mut found: Vec<UnspentOutput> = Vec::new();
        let mut i: usize = 0;
        proof {
            reveal(Seq::filter);
            assert(index.take(0) =~= Seq::<UtxoModel>::empty());
            assert(found.deep_view() =~= index.take(0).filter(same));
        }
        while i < self.utxos.len()
            invariant
                i <= self.utxos@.len(),
                self.utxos.deep_view() == index,
                wanted@ == txid@,
                same == |e: UtxoModel| e.txid == txid@,
                found.deep_view() == index.take(i as int).filter(same),
            decreases self.utxos@.len() - i,
        {
            let entry: &UnspentOutput = &self.utxos[i];
            let ghost shorter = found.deep_view();
            proof {
                assert(index[i as int] == entry@);
                assert(index.take(i + 1) =~= index.take(i as int).push(entry@));
                lemma_filter_push(index.take(i as int), entry@, same);
            }
            if entry.txid == wanted {
                found.push(entry.clone());
                assert(found.deep_view() =~= shorter.push(entry@));
            }
            i = i + 1;
        }
        assert(index.take(self.utxos@.len() as int) =~= index);
        found
    }
}

/// The elements of a sequence with one more at its end.
proof fn lemma_to_set_push<A>(s: Seq<A>, x: A)
    ensures
        s.push(x).to_set() == s.to_set().insert(x),
{
    assert forall|a: A| s.push(x).to_set().contains(a) <==> s.to_set().insert(x).contains(a) by {
        if s.push(x).contains(a) {
            let j = choose|j: int| 0 <= j < s.push(x).len() && s.push(x)[j] == a;
            if j < s.len() {
                assert(s[j] == a);
            }
        }
        if s.contains(a) {
            let j = choose|j: int| 0 <= j < s.len() && s[j] == a;
            assert(s.push(x)[j] == a);
        }
        if a == x {
            assert(s.push(x)[s.len() as int] == x);
        }
    }
    assert(s.push(x).to_set() =~= s.to_set().insert(x));
}

impl Blockchain {
    /// For each unspent output of the chain that is locked to `address`,
    /// oldest first, the transaction with the output's transaction id, as
    /// `find_transaction` finds it.
    pub fn find_unspent_transactions(&self, address: &str) -> (found: Vec<Transaction>)
        requires
            self.wf(),
        ensures
            found@.len() == owned_by(utxo_of(self@), address@).len(),
            forall|j: int|
                0 <= j < found@.len() ==> resolves(
                    self@,
                    owned_by(utxo_of(self@), address@)[j].txid,
                    (#[trigger] found@[j])@,
                ),
    {
        let utxos: Vec<UnspentOutput> = self.find_UTXO();
        let ghost index = utxos.deep_view();
        let ghost mine = |e: UtxoModel| e.output.script_pub_key == address@;
        let mut found: Vec<Transaction> = Vec::new();
        let mut i: usize = 0;
        proof {
            reveal(Seq::filter);
            assert(index.take(0) =~= Seq::<UtxoModel>::empty());
            assert(index.take(0).filter(mine).len() == 0);
        }
        while i < utxos.len()
            invariant
                self.wf(),
                i <= utxos@.len(),
                index == utxos.deep_view(),
                index == utxo_of(self@),
                mine == |e: UtxoModel| e.output.script_pub_key == address@,
                found@.len() == index.take(i as int).filter(mine).len(),
                forall|j: int|
                    0 <= j < found@.len() ==> resolves(
                        self@,
                        index.take(i as int).filter(mine)[j].txid,
                        (#[trigger] found@[j])@,
                    ),
            decreases utxos@.len() - i,
        {
            let entry: &UnspentOutput = &utxos[i];
            let ghost so_far = index.take(i as int).filter(mine);
            proof {
                assert(index[i as int] == entry@);
                assert(index.take(i + 1) =~= index.take(i as int).push(entry@));
                lemma_filter_push(index.take(i as int), entry@, mine);
            }
            if entry.output.can_be_unlock_with(address) {
                match self.find_transaction(entry.txid.as_str()) {
                    Ok(tx) => {
                        found.push(tx);
                    },
                    Err(_) => {
                        proof {
                            lemma_unspent_have_source(
                                self@,
                                0,
                                self@.len() as int,
                                entry@,
                            );
                        }
                    },
                }
            }
            i = i + 1;
        }
        assert(index.take(utxos@.len() as int) =~= index);
        found
    }
}

/// An input that stands before input `k` of transaction `t` of the block,
/// in a transaction that is no coinbase, refers to the output.
spec fn spent_before(block: BlockModel, t: int, k: int, txid: Seq<char>, index: int) -> bool {
    exists|a: int, b: int|
        {
            &&& 0 <= a < block.transactions.len()
            &&& !is_coinbase(block.transactions[a])
            &&& 0 <= b < block.transactions[a].vin.len()
            &&& a < t || (a == t && b < k)
            &&& (#[trigger] block.transactions[a].vin[b]).txid == txid
            &&& block.transactions[a].vin[b].vout == index
        }
}

/// An output is spent from height `lo` on exactly when block `lo` spends
/// it or it is spent from the next height on.
proof fn lemma_spent_from_front(chain: Seq<BlockModel>, lo: int, txid: Seq<char>, index: int)
    requires
        0 <= lo < chain.len(),
    ensures
        spent_from(chain, lo, txid, index) == (spent_by(chain[lo], txid, index) || spent_from(
            chain,
            lo + 1,
            txid,
            index,
        )),
{
    if spent_from(chain, lo, txid, index) {
        let h = choose|h: int| lo <= h < chain.len() && spent_by(#[trigger] chain[h], txid, index);
        if h > lo {
            assert(spent_from(chain, lo + 1, txid, index));
        }
    }
    if spent_from(chain, lo + 1, txid, index) {
        let h = choose|h: int|
            lo + 1 <= h < chain.len() && spent_by(#[trigger] chain[h], txid, index);
        assert(spent_by(chain[h], txid, index));
    }
}

proof fn lemma_listed_push(
    list: Seq<(Seq<char>, i32)>,
    entry: (Seq<char>, i32),
    txid: Seq<char>,
    index: int,
)
    ensures
        listed(list.push(entry), txid, index) == (listed(list, txid, index) || (entry.0 == txid
            && entry.1 == index)),
{
    let longer = list.push(entry);
    if listed(longer, txid, index) {
        let j = choose|j: int|
            0 <= j < longer.len() && (#[trigger] longer[j]).0 == txid && longer[j].1 == index;
        if j < list.len() {
            assert(list[j] == longer[j]);
        }
    }
    if listed(list, txid, index) {
        let j = choose|j: int|
            0 <= j < list.len() && (#[trigger] list[j]).0 == txid && list[j].1 == index;
        assert(longer[j] == list[j]);
    }
    if entry.0 == txid && entry.1 == index {
        assert(longer[list.len() as int] == entry);
    }
}

proof fn lemma_spent_before_step(block: BlockModel, t: int, k: int, txid: Seq<char>, index: int)
    requires
        0 <= t < block.transactions.len(),
        !is_coinbase(block.transactions[t]),
        0 <= k < block.transactions[t].vin.len(),
    ensures
        spent_before(block, t, k + 1, txid, index) == (spent_before(block, t, k, txid, index) || (
        block.transactions[t].vin[k].txid == txid && block.transactions[t].vin[k].vout == index)),
{
    if spent_before(block, t, k + 1, txid, index) {
        let (a, b) = choose|a: int, b: int|
            {
                &&& 0 <= a < block.transactions.len()
                &&& !is_coinbase(block.transactions[a])
                &&& 0 <= b < block.transactions[a].vin.len()
                &&& a < t || (a == t && b < k + 1)
                &&& (#[trigger] block.transactions[a].vin[b]).txid == txid
                &&& block.transactions[a].vin[b].vout == index
            };
        if a == t && b == k {
        } else {
            assert(block.transactions[a].vin[b].txid == txid);
        }
    }
    if spent_before(block, t, k, txid, index) {
        let (a, b) = choose|a: int, b: int|
            {
                &&& 0 <= a < block.transactions.len()
                &&& !is_coinbase(block.transactions[a])
                &&& 0 <= b < block.transactions[a].vin.len()
                &&& a < t || (a == t && b < k)
                &&& (#[trigger] block.transactions[a].vin[b]).txid == txid
                &&& block.transactions[a].vin[b].vout == index
            };
        assert(block.transactions[a].vin[b].txid == txid);
    }
    if block.transactions[t].vin[k].txid == txid && block.transactions[t].vin[k].vout == index {
        assert(spent_before(block, t, k + 1, txid, index));
    }
}

proof fn lemma_spent_before_next(block: BlockModel, t: int, txid: Seq<char>, index: int)
    requires
        0 <= t < block.transactions.len(),
    ensures
        spent_before(block, t, block.transactions[t].vin.len() as int, txid, index)
            == spent_before(block, t + 1, 0, txid, index),
{
    let full = block.transactions[t].vin.len() as int;
    if spent_before(block, t, full, txid, index) {
        let (a, b) = choose|a: int, b: int|
            {
                &&& 0 <= a < block.transactions.len()
                &&& !is_coinbase(block.transactions[a])
                &&& 0 <= b < block.transactions[a].vin.len()
                &&& a < t || (a == t && b < full)
                &&& (#[trigger] block.transactions[a].vin[b]).txid == txid
                &&& block.transactions[a].vin[b].vout == index
            };
        assert(block.transactions[a].vin[b].txid == txid);
    }
    if spent_before(block, t + 1, 0, txid, index) {
        let (a, b) = choose|a: int, b: int|
            {
                &&& 0 <= a < block.transactions.len()
                &&& !is_coinbase(block.transactions[a])
                &&& 0 <= b < block.transactions[a].vin.len()
                &&& a < t + 1 || (a == t + 1 && b < 0)
                &&& (#[trigger] block.transactions[a].vin[b]).txid == txid
                &&& block.transactions[a].vin[b].vout == index
            };
        assert(block.transactions[a].vin[b].txid == txid);
    }
}

proof fn lemma_spent_before_skip(block: BlockModel, t: int, txid: Seq<char>, index: int)
    requires
        0 <= t < block.transactions.len(),
        is_coinbase(block.transactions[t]),
    ensures
        spent_before(block, t, 0, txid, index) == spent_before(block, t + 1, 0, txid, index),
{
    if spent_before(block, t, 0, txid, index) {
        let (a, b) = choose|a: int, b: int|
            {
                &&& 0 <= a < block.transactions.len()
                &&& !is_coinbase(block.transactions[a])
                &&& 0 <= b < block.transactions[a].vin.len()
                &&& a < t || (a == t && b < 0)
                &&& (#[trigger] block.transactions[a].vin[b]).txid == txid
                &&& block.transactions[a].vin[b].vout == index
            };
        assert(block.transactions[a].vin[b].txid == txid);
    }
    if spent_before(block, t + 1, 0, txid, index) {
        let (a, b) = choose|a: int, b: int|
            {
                &&& 0 <= a < block.transactions.len()
                &&& !is_coinbase(block.transactions[a])
                &&& 0 <= b < block.transactions[a].vin.len()
                &&& a < t + 1 || (a == t + 1 && b < 0)
                &&& (#[trigger] block.transactions[a].vin[b]).txid == txid
                &&& block.transactions[a].vin[b].vout == index
            };
        assert(block.transactions[a].vin[b].txid == txid);
    }
}

proof fn lemma_spent_before_all(block: BlockModel, txid: Seq<char>, index: int)
    ensures
        spent_before(block, block.transactions.len() as int, 0, txid, index) == spent_by(
            block,
            txid,
            index,
        ),
{
    let n = block.transactions.len() as int;
    if spent_before(block, n, 0, txid, index) {
        let (a, b) = choose|a: int, b: int|
            {
                &&& 0 <= a < block.transactions.len()
                &&& !is_coinbase(block.transactions[a])
                &&& 0 <= b < block.transactions[a].vin.len()
                &&& a < n || (a == n && b < 0)
                &&& (#[trigger] block.transactions[a].vin[b]).txid == txid
                &&& block.transactions[a].vin[b].vout == index
            };
        assert(block.transactions[a].vin[b].txid == txid);
    }
    if spent_by(block, txid, index) {
        let (a, b) = choose|a: int, b: int|
            {
                &&& 0 <= a < block.transactions.len()
                &&& !is_coinbase(block.transactions[a])
                &&& 0 <= b < block.transactions[a].vin.len()
                &&& (#[trigger] block.transactions[a].vin[b]).txid == txid
                &&& block.transactions[a].vin[b].vout == index
            };
        assert(block.transactions[a].vin[b].txid == txid);
    }
}

} // verus!

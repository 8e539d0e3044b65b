use vstd::prelude::*;
use crate::model::{absent, is_coinbase, BlockModel, OutputModel, TransactionModel};

verus! {

/// An output together with the transaction that made it and its position
/// among that transaction's outputs.
pub struct UtxoModel {
    pub txid: Seq<char>,
    pub index: int,
    pub output: OutputModel,
}

/// An input of a transaction of `block` that is no coinbase refers to
/// output `index` of the transaction `txid`.
pub open spec fn spent_by(block: BlockModel, txid: Seq<char>, index: int) -> bool {
    exists|t: int, k: int|
        {
            &&& 0 <= t < block.transactions.len()
            &&& !is_coinbase(block.transactions[t])
            &&& 0 <= k < block.transactions[t].vin.len()
            &&& (#[trigger] block.transactions[t].vin[k]).txid == txid
            &&& block.transactions[t].vin[k].vout == index
        }
}

/// A block of `chain` at height `lo` or above spends the output.
pub open spec fn spent_from(chain: Seq<BlockModel>, lo: int, txid: Seq<char>, index: int) -> bool {
    exists|h: int| lo <= h < chain.len() && spent_by(#[trigger] chain[h], txid, index)
}

/// The outputs of one transaction, each tagged with the transaction's id
/// and its own position.
pub open spec fn tx_outputs(tx: TransactionModel) -> Seq<UtxoModel> {
    Seq::new(tx.vout.len(), |i: int| UtxoModel { txid: tx.id, index: i, output: tx.vout[i] })
}

/// The outputs of a list of transactions, in order.
pub open spec fn outputs_of(txs: Seq<TransactionModel>) -> Seq<UtxoModel>
    decreases txs.len(),
{
    if txs.len() == 0 {
        Seq::empty()
    } else {
        outputs_of(txs.drop_last()) + tx_outputs(txs.last())
    }
}

/// The outputs of block `h` that no block at height `h` or above spends.
pub open spec fn unspent_in(chain: Seq<BlockModel>, h: int) -> Seq<UtxoModel> {
    outputs_of(chain[h].transactions).filter(
        |e: UtxoModel| !spent_from(chain, h, e.txid, e.index),
    )
}

/// The unspent outputs of the blocks at heights `lo` up to, not including,
/// `hi`, oldest first.
pub open spec fn utxo_range(chain: Seq<BlockModel>, lo: int, hi: int) -> Seq<UtxoModel>
    decreases hi - lo,
{
    if hi <= lo {
        Seq::empty()
    } else {
        utxo_range(chain, lo, hi - 1) + unspent_in(chain, hi - 1)
    }
}

/// The unspent outputs of a chain: an output of a block belongs to them if
/// and only if no input in that block or in a later one refers to it.
pub open spec fn utxo_of(chain: Seq<BlockModel>) -> Seq<UtxoModel> {
    utxo_range(chain, 0, chain.len() as int)
}

/// What one more block makes of an index: the entries it spends leave, and
/// its own outputs that it does not spend itself arrive.
pub open spec fn apply_block(index: Seq<UtxoModel>, block: BlockModel) -> Seq<UtxoModel> {
    index.filter(|e: UtxoModel| !spent_by(block, e.txid, e.index)) + outputs_of(
        block.transactions,
    ).filter(|e: UtxoModel| !spent_by(block, e.txid, e.index))
}

/// The index that results from starting empty and applying the blocks of
/// the chain one after the other, oldest first.
pub open spec fn replay(chain: Seq<BlockModel>) -> Seq<UtxoModel>
    decreases chain.len(),
{
    if chain.len() == 0 {
        Seq::empty()
    } else {
        apply_block(replay(chain.drop_last()), chain.last())
    }
}

/// The entries of an index that are locked to `owner`.
pub open spec fn owned_by(index: Seq<UtxoModel>, owner: Seq<char>) -> Seq<UtxoModel> {
    index.filter(|e: UtxoModel| e.output.script_pub_key == owner)
}

/// The entries of an index that the transaction `txid` made.
pub open spec fn made_by(index: Seq<UtxoModel>, txid: Seq<char>) -> Seq<UtxoModel> {
    index.filter(|e: UtxoModel| e.txid == txid)
}

/// The texts of a list, each once, in the order of their first occurrence.
pub open spec fn first_occurrences(texts: Seq<Seq<char>>) -> Seq<Seq<char>>
    decreases texts.len(),
{
    if texts.len() == 0 {
        Seq::empty()
    } else {
        let rest = first_occurrences(texts.drop_last());
        if rest.contains(texts.last()) {
            rest
        } else {
            rest.push(texts.last())
        }
    }
}

/// The transaction ids of the entries of an index, in order.
pub open spec fn txids(index: Seq<UtxoModel>) -> Seq<Seq<char>> {
    index.map_values(|e: UtxoModel| e.txid)
}

/// The ids of the transactions that have an entry in the index.
pub open spec fn ids_of(index: Seq<UtxoModel>) -> Set<Seq<char>> {
    txids(index).to_set()
}

/// Whether a list of references, each a transaction id with an output
/// position, names output `index` of transaction `txid`.
pub open spec fn listed(list: Seq<(Seq<char>, i32)>, txid: Seq<char>, index: int) -> bool {
    exists|j: int| 0 <= j < list.len() && (#[trigger] list[j]).0 == txid && list[j].1 == index
}

/// Filtering a sequence with one more element at its end.
pub proof fn lemma_filter_push<A>(s: Seq<A>, x: A, p: spec_fn(A) -> bool)
    ensures
        s.push(x).filter(p) == if p(x) {
            s.filter(p).push(x)
        } else {
            s.filter(p)
        },
{
    reveal(Seq::filter);
    assert(s.push(x).drop_last() =~= s);
    assert(s.push(x).last() == x);
}

/// Filtering by two predicates that agree on every element gives the same.
pub proof fn lemma_filter_agree<A>(s: Seq<A>, p: spec_fn(A) -> bool, q: spec_fn(A) -> bool)
    requires
        forall|i: int| 0 <= i < s.len() ==> p(#[trigger] s[i]) == q(s[i]),
    ensures
        s.filter(p) == s.filter(q),
    decreases s.len(),
{
    reveal(Seq::filter);
    if s.len() > 0 {
        assert forall|i: int| 0 <= i < s.drop_last().len() implies p(
            #[trigger] s.drop_last()[i],
        ) == q(s.drop_last()[i]) by {
            assert(s.drop_last()[i] == s[i]);
        }
        lemma_filter_agree(s.drop_last(), p, q);
        assert(p(s.last()) == q(s.last()));
    }
}

/// Filtering twice is filtering by both predicates at once.
pub proof fn lemma_filter_twice<A>(s: Seq<A>, p: spec_fn(A) -> bool, q: spec_fn(A) -> bool)
    ensures
        s.filter(p).filter(q) == s.filter(|x: A| p(x) && q(x)),
    decreases s.len(),
{
    reveal(Seq::filter);
    let both = |x: A| p(x) && q(x);
    if s.len() > 0 {
        let front = s.drop_last();
        lemma_filter_twice(front, p, q);
        if p(s.last()) {
            let kept = front.filter(p).push(s.last());
            assert(kept.drop_last() =~= front.filter(p));
            assert(kept.last() == s.last());
        }
    }
}

/// The unspent outputs of a range of blocks, split at its lower end.
pub proof fn lemma_utxo_range_front(chain: Seq<BlockModel>, lo: int, hi: int)
    requires
        lo < hi,
    ensures
        utxo_range(chain, lo, hi) == unspent_in(chain, lo) + utxo_range(chain, lo + 1, hi),
    decreases hi - lo,
{
    if hi == lo + 1 {
        assert(utxo_range(chain, lo, lo) =~= Seq::<UtxoModel>::empty());
        assert(utxo_range(chain, lo + 1, hi) =~= Seq::<UtxoModel>::empty());
        assert(utxo_range(chain, lo, hi) =~= unspent_in(chain, lo) + utxo_range(
            chain,
            lo + 1,
            hi,
        ));
    } else {
        lemma_utxo_range_front(chain, lo, hi - 1);
        assert(utxo_range(chain, lo, hi) =~= unspent_in(chain, lo) + utxo_range(
            chain,
            lo + 1,
            hi,
        ));
    }
}

/// One more block on top filters what the blocks below it left unspent.
proof fn lemma_range_under_push(chain: Seq<BlockModel>, block: BlockModel, hi: int)
    requires
        0 <= hi <= chain.len(),
    ensures
        utxo_range(chain.push(block), 0, hi) == utxo_range(chain, 0, hi).filter(
            |e: UtxoModel| !spent_by(block, e.txid, e.index),
        ),
    decreases hi,
{
    let longer = chain.push(block);
    let fresh = |e: UtxoModel| !spent_by(block, e.txid, e.index);
    if hi == 0 {
        reveal(Seq::filter);
        assert(utxo_range(chain, 0, 0).filter(fresh) =~= Seq::<UtxoModel>::empty());
    } else {
        let h = hi - 1;
        lemma_range_under_push(chain, block, h);
        let outs = outputs_of(chain[h].transactions);
        let below = |e: UtxoModel| !spent_from(chain, h, e.txid, e.index);
        let above = |e: UtxoModel| !spent_from(longer, h, e.txid, e.index);
        assert(longer[h] == chain[h]);
        assert forall|i: int| 0 <= i < outs.len() implies above(#[trigger] outs[i]) == (below(
            outs[i],
        ) && fresh(outs[i])) by {
            let e = outs[i];
            lemma_spent_from_push(chain, block, h, e.txid, e.index);
        }
        lemma_filter_agree(outs, above, |e: UtxoModel| below(e) && fresh(e));
        lemma_filter_twice(outs, below, fresh);
        assert(unspent_in(longer, h) == unspent_in(chain, h).filter(fresh));
        Seq::filter_distributes_over_add(utxo_range(chain, 0, h), unspent_in(chain, h), fresh);
    }
}

/// In a chain with one more block on top, an output is spent from height
/// `lo` on exactly when it was so before or the new block spends it.
pub proof fn lemma_spent_from_push(
    chain: Seq<BlockModel>,
    block: BlockModel,
    lo: int,
    txid: Seq<char>,
    index: int,
)
    requires
        0 <= lo <= chain.len(),
    ensures
        spent_from(chain.push(block), lo, txid, index) == (spent_from(chain, lo, txid, index)
            || spent_by(block, txid, index)),
{
    let longer = chain.push(block);
    if spent_from(longer, lo, txid, index) {
        let h = choose|h: int| lo <= h < longer.len() && spent_by(#[trigger] longer[h], txid, index);
        if h < chain.len() {
            assert(longer[h] == chain[h]);
        } else {
            assert(longer[h] == block);
        }
    }
    if spent_from(chain, lo, txid, index) {
        let h = choose|h: int| lo <= h < chain.len() && spent_by(#[trigger] chain[h], txid, index);
        assert(longer[h] == chain[h]);
    }
    if spent_by(block, txid, index) {
        assert(longer[chain.len() as int] == block);
    }
}

/// An output of block `h` is among the unspent ones exactly when no block
/// at height `h` or above spends it.
pub proof fn lemma_unspent_in_block(chain: Seq<BlockModel>, h: int, e: UtxoModel)
    ensures
        unspent_in(chain, h).contains(e) <==> (outputs_of(chain[h].transactions).contains(e)
            && !spent_from(chain, h, e.txid, e.index)),
{
    let outs = outputs_of(chain[h].transactions);
    let live = |x: UtxoModel| !spent_from(chain, h, x.txid, x.index);
    if outs.filter(live).contains(e) {
        outs.lemma_filter_contains_rev(live, e);
        let i = choose|i: int| 0 <= i < outs.filter(live).len() && outs.filter(live)[i] == e;
        outs.lemma_filter_pred(live, i);
    }
    if outs.contains(e) && live(e) {
        let i = choose|i: int| 0 <= i < outs.len() && outs[i] == e;
        outs.lemma_filter_contains(live, i);
    }
}

/// An output is in the index of a chain exactly when it is an unspent
/// output of one of its blocks.
pub proof fn lemma_index_membership(chain: Seq<BlockModel>, e: UtxoModel)
    ensures
        utxo_of(chain).contains(e) <==> exists|h: int|
            0 <= h < chain.len() && #[trigger] unspent_in(chain, h).contains(e),
{
    lemma_range_membership(chain, chain.len() as int, e);
}

proof fn lemma_range_membership(chain: Seq<BlockModel>, hi: int, e: UtxoModel)
    requires
        0 <= hi,
    ensures
        utxo_range(chain, 0, hi).contains(e) <==> exists|h: int|
            0 <= h < hi && #[trigger] unspent_in(chain, h).contains(e),
    decreases hi,
{
    if hi > 0 {
        lemma_range_membership(chain, hi - 1, e);
        let front = utxo_range(chain, 0, hi - 1);
        let back = unspent_in(chain, hi - 1);
        if (front + back).contains(e) {
            let i = choose|i: int| 0 <= i < (front + back).len() && (front + back)[i] == e;
            if i < front.len() {
                assert(front[i] == e);
            } else {
                assert(back[i - front.len()] == e);
            }
        }
        if front.contains(e) {
            let i = choose|i: int| 0 <= i < front.len() && front[i] == e;
            assert((front + back)[i] == e);
        }
        if back.contains(e) {
            let i = choose|i: int| 0 <= i < back.len() && back[i] == e;
            assert((front + back)[front.len() + i] == e);
        }
        if exists|h: int| 0 <= h < hi && #[trigger] unspent_in(chain, h).contains(e) {
            let h = choose|h: int| 0 <= h < hi && #[trigger] unspent_in(chain, h).contains(e);
            if h < hi - 1 {
                assert(front.contains(e));
            }
        }
    }
}

/// Every output in the list carries the id of one of the transactions.
pub proof fn lemma_outputs_have_source(txs: Seq<TransactionModel>, e: UtxoModel)
    requires
        outputs_of(txs).contains(e),
    ensures
        exists|t: int| 0 <= t < txs.len() && (#[trigger] txs[t]).id == e.txid,
    decreases txs.len(),
{
    if txs.len() > 0 {
        let front = outputs_of(txs.drop_last());
        let back = tx_outputs(txs.last());
        let i = choose|i: int| 0 <= i < outputs_of(txs).len() && outputs_of(txs)[i] == e;
        if i < front.len() {
            assert(front[i] == e);
            lemma_outputs_have_source(txs.drop_last(), e);
            let t = choose|t: int|
                0 <= t < txs.drop_last().len() && (#[trigger] txs.drop_last()[t]).id == e.txid;
            assert(txs[t].id == e.txid);
        } else {
            assert(back[i - front.len()] == e);
            assert(txs[txs.len() - 1].id == e.txid);
        }
    }
}

/// Every unspent output carries the id of a transaction of the chain.
pub proof fn lemma_unspent_have_source(chain: Seq<BlockModel>, lo: int, hi: int, e: UtxoModel)
    requires
        0 <= lo <= hi <= chain.len(),
        utxo_range(chain, lo, hi).contains(e),
    ensures
        !absent(chain, e.txid),
    decreases hi - lo,
{
    if hi > lo {
        let front = utxo_range(chain, lo, hi - 1);
        let back = unspent_in(chain, hi - 1);
        let i = choose|i: int|
            0 <= i < utxo_range(chain, lo, hi).len() && utxo_range(chain, lo, hi)[i] == e;
        if i < front.len() {
            assert(front[i] == e);
            lemma_unspent_have_source(chain, lo, hi - 1, e);
        } else {
            assert(back[i - front.len()] == e);
            let txs = chain[hi - 1].transactions;
            outputs_of(txs).lemma_filter_contains_rev(
                |x: UtxoModel| !spent_from(chain, hi - 1, x.txid, x.index),
                e,
            );
            lemma_outputs_have_source(txs, e);
            let t = choose|t: int| 0 <= t < txs.len() && (#[trigger] txs[t]).id == e.txid;
            assert(chain[hi - 1].transactions[t].id == e.txid);
        }
    }
}

/// Rebuilding the index from the whole chain gives what applying the
/// blocks one after the other to an empty index gives.
pub proof fn lemma_replay_equivalence(chain: Seq<BlockModel>)
    ensures
        utxo_of(chain) == replay(chain),
    decreases chain.len(),
{
    if chain.len() > 0 {
        let below = chain.drop_last();
        let top = chain.last();
        lemma_replay_equivalence(below);
        lemma_step_equivalence(below, top);
        assert(chain =~= below.push(top));
    }
}

/// The unspent outputs of a chain with one more block are what that block
/// makes of the unspent outputs of the chain without it.
pub proof fn lemma_step_equivalence(chain: Seq<BlockModel>, block: BlockModel)
    ensures
        utxo_of(chain.push(block)) == apply_block(utxo_of(chain), block),
{
    let longer = chain.push(block);
    let n = chain.len() as int;
    let fresh = |e: UtxoModel| !spent_by(block, e.txid, e.index);
    let own = |e: UtxoModel| !spent_from(longer, n, e.txid, e.index);
    let outs = outputs_of(block.transactions);
    lemma_range_under_push(chain, block, n);
    assert(longer[n] == block);
    assert forall|i: int| 0 <= i < outs.len() implies own(#[trigger] outs[i]) == fresh(
        outs[i],
    ) by {
        let e = outs[i];
        if spent_from(longer, n, e.txid, e.index) {
            let h = choose|h: int|
                n <= h < longer.len() && spent_by(#[trigger] longer[h], e.txid, e.index);
            assert(h == n);
        }
    }
    lemma_filter_agree(outs, own, fresh);
    assert(unspent_in(longer, n) == outs.filter(fresh));
}

} // verus!

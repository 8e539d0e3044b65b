use vstd::prelude::*;
use crate::error::ChainError;
use crate::model::{content_hash, without_id, InputModel, OutputModel, TransactionModel};
use crate::transaction::{TXInput, TXOutput, Transaction};
use crate::unspent::{lemma_filter_push, owned_by, UtxoModel};
use crate::utxoset::{UTXOSet, UnspentOutput};

verus! {

/// An entry that `owner` can spend: it is locked to `owner`, and its
/// position can be written in an input.
pub open spec fn spendable(e: UtxoModel, owner: Seq<char>) -> bool {
    e.output.script_pub_key == owner && e.index <= i32::MAX
}

/// The entries of the index that `owner` can spend, in the order of the index.
pub open spec fn candidates(index: Seq<UtxoModel>, owner: Seq<char>) -> Seq<UtxoModel> {
    index.filter(|e: UtxoModel| spendable(e, owner))
}

/// The sum of the values of the entries.
pub open spec fn total(entries: Seq<UtxoModel>) -> int
    decreases entries.len(),
{
    if entries.len() == 0 {
        0
    } else {
        total(entries.drop_last()) + entries.last().output.value
    }
}

/// The first `k` entries cover `amount`, and no fewer do.
pub open spec fn covers_with(entries: Seq<UtxoModel>, amount: int, k: int) -> bool {
    &&& 0 <= k <= entries.len()
    &&& total(entries.take(k)) >= amount
    &&& forall|j: int| 0 <= j < k ==> #[trigger] total(entries.take(j)) < amount
}

/// However many of the entries are taken, from the first on, they do not
/// cover `amount`.
pub open spec fn insufficient(entries: Seq<UtxoModel>, amount: int) -> bool {
    forall|j: int| 0 <= j <= entries.len() ==> #[trigger] total(entries.take(j)) < amount
}

/// One input for each entry taken, carrying the sender as its proof until
/// the transaction is signed.
pub open spec fn spend_inputs(taken: Seq<UtxoModel>, from: Seq<char>) -> Seq<InputModel> {
    Seq::new(
        taken.len(),
        |i: int| InputModel { txid: taken[i].txid, vout: taken[i].index as i32, script_sig: from },
    )
}

/// The amount to the receiver and, where the inputs hold more, the rest
/// back to the sender.
pub open spec fn spend_outputs(held: int, amount: i32, from: Seq<char>, to: Seq<char>) -> Seq<
    OutputModel,
> {
    if held > amount {
        seq![
            OutputModel { value: amount, script_pub_key: to },
            OutputModel { value: (held - amount) as i32, script_pub_key: from },
        ]
    } else {
        seq![OutputModel { value: amount, script_pub_key: to }]
    }
}

/// The transfer that spends the entries `taken`, before its id is set.
pub open spec fn spend_body(taken: Seq<UtxoModel>, amount: i32, from: Seq<char>, to: Seq<char>) -> TransactionModel {
    TransactionModel {
        id: Seq::empty(),
        vin: spend_inputs(taken, from),
        vout: spend_outputs(total(taken), amount, from, to),
    }
}

/// The sum of a sequence of entries with one more at its end.
pub proof fn lemma_total_push(entries: Seq<UtxoModel>, e: UtxoModel)
    ensures
        total(entries.push(e)) == total(entries) + e.output.value,
{
    assert(entries.push(e).drop_last() =~= entries);
    assert(entries.push(e).last() == e);
}

/// Where no entry has a negative value, taking more entries never gives less.
pub proof fn lemma_total_grows(entries: Seq<UtxoModel>, j: int)
    requires
        0 <= j <= entries.len(),
        forall|i: int| 0 <= i < entries.len() ==> (#[trigger] entries[i]).output.value >= 0,
    ensures
        total(entries.take(j)) <= total(entries),
    decreases entries.len() - j,
{
    if j == entries.len() {
        assert(entries.take(j) =~= entries);
    } else {
        lemma_total_grows(entries, j + 1);
        assert(entries.take(j + 1) =~= entries.take(j).push(entries[j]));
        lemma_total_push(entries.take(j), entries[j]);
    }
}

/// An amount above the sum of what the sender can spend is never covered,
/// provided that no entry of the sender has a negative value.
pub proof fn lemma_overspend_is_insufficient(index: Seq<UtxoModel>, from: Seq<char>, amount: int)
    requires
        forall|i: int|
            0 <= i < candidates(index, from).len() ==> (#[trigger] candidates(
                index,
                from,
            )[i]).output.value >= 0,
        amount > total(candidates(index, from)),
    ensures
        insufficient(candidates(index, from), amount),
{
    let entries = candidates(index, from);
    assert forall|j: int| 0 <= j <= entries.len() implies #[trigger] total(entries.take(j))
        < amount by {
        lemma_total_grows(entries, j);
    }
}

/// The entries of the index that `owner` can spend.
fn spendable_entries(set: &UTXOSet, owner: &str) -> (found: Vec<UnspentOutput>)
    ensures
        found.deep_view() == candidates(set.index(), owner@),
{
    let ghost index = set.index();
    let ghost mine = |e: UtxoModel| spendable(e, owner@);
    let mut found: Vec<UnspentOutput> = Vec::new();
    let mut i: usize = 0;
    proof {
        reveal(Seq::filter);
        assert(index.take(0) =~= Seq::<UtxoModel>::empty());
        assert(found.deep_view() =~= index.take(0).filter(mine));
    }
    while i < set.utxos.len()
        invariant
            i <= set.utxos@.len(),
            set.utxos.deep_view() == index,
            mine == |e: UtxoModel| spendable(e, owner@),
            found.deep_view() == index.take(i as int).filter(mine),
        decreases set.utxos@.len() - i,
    {
        let entry: &UnspentOutput = &set.utxos[i];
        let ghost shorter = found.deep_view();
        proof {
            assert(index[i as int] == entry@);
            assert(index.take(i + 1) =~= index.take(i as int).push(entry@));
            lemma_filter_push(index.take(i as int), entry@, mine);
        }
        if entry.vout <= i32::MAX as usize && entry.output.can_be_unlock_with(owner) {
            found.push(entry.clone());
            assert(found.deep_view() =~= shorter.push(entry@));
        }
        i = i + 1;
    }
    assert(index.take(set.utxos@.len() as int) =~= index);
    found
}

impl UTXOSet {
    /// The sum of the values of the entries that are locked to `owner`.
    pub fn get_balance(&self, owner: &str) -> (balance: i128)
        ensures
            balance == total(owned_by(self.index(), owner@)),
    {
        let found: Vec<UnspentOutput> = self.find_spendable_outputs(owner);
        let ghost entries = found.deep_view();
        let mut balance: i128 = 0;
        let mut k: usize = 0;
        assert(entries.take(0) =~= Seq::<UtxoModel>::empty());
        while k < found.len()
            invariant
                k <= found@.len(),
                entries == found.deep_view(),
                balance == total(entries.take(k as int)),
                -0x8000_0000 * k <= balance <= 0x8000_0000 * k,
            decreases found@.len() - k,
        {
            let entry: &UnspentOutput = &found[k];
            proof {
                assert(entries[k as int] == entry@);
                assert(entries.take(k + 1) =~= entries.take(k as int).push(entry@));
                lemma_total_push(entries.take(k as int), entry@);
            }
            balance = balance + entry.output.value as i128;
            k = k + 1;
        }
        assert(entries.take(found@.len() as int) =~= entries);
        balance
    }
}

impl Transaction {
    /// A transfer of `amount` from `from` to `to`. It spends the entries of
    /// the index that `from` can spend, in the order of the index, as many
    /// as are needed to cover the amount and no more; what they hold beyond
    /// the amount goes back to `from`.
    ///
    /// Fails with `InsufficientFunds` when the entries do not cover the
    /// amount, and with `SerializationFailure` when the transfer has no
    /// content hash.
    pub fn new_utxo(from: &str, to: &str, amount: i32, utxo_set: &UTXOSet) -> (made: Result<
        Transaction,
        ChainError,
    >)
        requires
            amount > i32::MIN,
        ensures
            insufficient(candidates(utxo_set.index(), from@), amount as int) <==> made
                == Err::<Transaction, ChainError>(ChainError::InsufficientFunds),
            match made {
                Ok(tx) => {
                    let entries = candidates(utxo_set.index(), from@);
                    exists|k: int|
                        {
                            &&& #[trigger] covers_with(entries, amount as int, k)
                            &&& without_id(tx@) == spend_body(entries.take(k), amount, from@, to@)
                            &&& content_hash(spend_body(entries.take(k), amount, from@, to@))
                                == Some(tx@.id)
                        }
                },
                Err(e) => {
                    let entries = candidates(utxo_set.index(), from@);
                    match e {
                        ChainError::InsufficientFunds => insufficient(entries, amount as int),
                        ChainError::SerializationFailure => exists|k: int|
                            {
                                &&& #[trigger] covers_with(entries, amount as int, k)
                                &&& content_hash(
                                    spend_body(entries.take(k), amount, from@, to@),
                                ) is None
                            },
                        _ => false,
                    }
                },
            },
    {
        let found: Vec<UnspentOutput> = spendable_entries(utxo_set, from);
        let ghost entries = found.deep_view();
        let mut vin: Vec<TXInput> = Vec::new();
        let mut held: i128 = 0;
        let mut k: usize = 0;
        proof {
            assert(entries.take(0) =~= Seq::<UtxoModel>::empty());
            let mine = |e: UtxoModel| spendable(e, from@);
            assert forall|i: int| 0 <= i < entries.len() implies spendable(
                #[trigger] entries[i],
                from@,
            ) by {
                utxo_set.index().lemma_filter_pred(mine, i);
            }
        }
        while k < found.len() && held < amount as i128
            invariant
                k <= found@.len(),
                entries == found.deep_view(),
                forall|i: int| 0 <= i < entries.len() ==> spendable(#[trigger] entries[i], from@),
                held == total(entries.take(k as int)),
                -0x8000_0000 * k <= held,
                k > 0 ==> held - entries[k - 1].output.value < amount,
                forall|j: int| 0 <= j < k ==> #[trigger] total(entries.take(j)) < amount,
                vin.deep_view() == spend_inputs(entries.take(k as int), from@),
            decreases found@.len() - k,
        {
            let entry: &UnspentOutput = &found[k];
            let ghost shorter = vin.deep_view();
            proof {
                assert(entries[k as int] == entry@);
                assert(entries.take(k + 1) =~= entries.take(k as int).push(entry@));
                lemma_total_push(entries.take(k as int), entry@);
            }
            vin.push(
                TXInput {
                    txid: entry.txid.clone(),
                    vout: entry.vout as i32,
                    script_sig: from.to_owned(),
                },
            );
            proof {
                assert(spendable(entries[k as int], from@));
                let added = InputModel {
                    txid: entry@.txid,
                    vout: entry@.index as i32,
                    script_sig: from@,
                };
                assert(vin.deep_view() =~= shorter.push(added));
                assert(vin.deep_view() =~= spend_inputs(entries.take(k + 1), from@));
            }
            held = held + entry.output.value as i128;
            k = k + 1;
        }
        if held < amount as i128 {
            return Err(ChainError::InsufficientFunds);
        }
        assert(covers_with(entries, amount as int, k as int));
        let mut vout: Vec<TXOutput> = Vec::new();
        vout.push(TXOutput { value: amount, script_pub_key: to.to_owned() });
        if held > amount as i128 {
            let change: i128 = held - amount as i128;
            assert(0 < change <= i32::MAX);
            vout.push(TXOutput { value: change as i32, script_pub_key: from.to_owned() });
        }
        assert(vout.deep_view() =~= spend_outputs(held as int, amount, from@, to@));
        let mut tx = Transaction { id: String::new(), vin, vout };
        assert(tx@ == spend_body(entries.take(k as int), amount, from@, to@));
        match tx.set_id() {
            Ok(()) => Ok(tx),
            Err(e) => Err(e),
        }
    }
}

} // verus!

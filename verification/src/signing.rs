use vstd::prelude::*;
use vstd::string::*;
use vstd::utf8::encode_utf8;
use crate::blockchain::Blockchain;
use crate::error::ChainError;
use crate::hex::{decode_hex, encode_hex, hex_decoding, hex_encoding};
use crate::model::{
    absent, coinbase_body, content_hash, is_coinbase, lemma_coinbase_is_coinbase, resolves,
    without_id, InputModel, OutputModel, TransactionModel,
};
use crate::signature::{accepts_bytes, ed25519_accepts, ed25519_signature, sign_bytes};
use crate::transaction::{TXInput, Transaction};

verus! {

/// Position `p` holds the first of the transactions with this id.
pub open spec fn refers_at(prev: Seq<TransactionModel>, id: Seq<char>, p: int) -> bool {
    &&& 0 <= p < prev.len()
    &&& prev[p].id == id
    &&& forall|q: int| 0 <= q < p ==> (#[trigger] prev[q]).id != id
}

/// The first of the transactions with this id, if there is one.
pub open spec fn referenced(prev: Seq<TransactionModel>, id: Seq<char>) -> Option<
    TransactionModel,
> {
    if exists|p: int| refers_at(prev, id, p) {
        Some(prev[choose|p: int| refers_at(prev, id, p)])
    } else {
        None
    }
}

/// The output that an input refers to, if the transaction is among `prev`
/// and has an output at that position.
pub open spec fn referenced_output(prev: Seq<TransactionModel>, input: InputModel) -> Option<
    OutputModel,
> {
    match referenced(prev, input.txid) {
        Some(tx) => if 0 <= input.vout < tx.vout.len() {
            Some(tx.vout[input.vout as int])
        } else {
            None
        },
        None => None,
    }
}

/// Every input refers to an output of a transaction among `prev`.
pub open spec fn all_referenced(tx: TransactionModel, prev: Seq<TransactionModel>) -> bool {
    forall|k: int| 0 <= k < tx.vin.len() ==> referenced_output(prev, #[trigger] tx.vin[k]) is Some
}

/// The copy of a transaction that input `k` is signed over: no input
/// carries a proof, but for input `k`, which carries `lock`.
pub open spec fn redacted(tx: TransactionModel, k: int, lock: Seq<char>) -> TransactionModel {
    TransactionModel {
        id: tx.id,
        vin: Seq::new(
            tx.vin.len(),
            |i: int|
                InputModel {
                    txid: tx.vin[i].txid,
                    vout: tx.vin[i].vout,
                    script_sig: if i == k {
                        lock
                    } else {
                        Seq::empty()
                    },
                },
        ),
        vout: tx.vout,
    }
}

/// The digest that input `k` is signed over: the content hash of the
/// redacted copy that carries the locking condition of the output the
/// input refers to.
pub open spec fn signable_digest(tx: TransactionModel, k: int, prev: Seq<TransactionModel>) -> Option<
    Seq<char>,
> {
    match referenced_output(prev, tx.vin[k]) {
        Some(out) => content_hash(redacted(tx, k, out.script_pub_key)),
        None => None,
    }
}

/// The proof that signing puts into input `k`: the signature of the
/// digest's text, written in hexadecimal.
pub open spec fn signature_text(
    tx: TransactionModel,
    k: int,
    prev: Seq<TransactionModel>,
    key: Seq<u8>,
) -> Option<Seq<char>> {
    match signable_digest(tx, k, prev) {
        Some(digest) => Some(hex_encoding(ed25519_signature(encode_utf8(digest), key))),
        None => None,
    }
}

/// The transaction with every input's proof replaced by its signature.
pub open spec fn signed(tx: TransactionModel, prev: Seq<TransactionModel>, key: Seq<u8>) -> TransactionModel {
    TransactionModel {
        id: tx.id,
        vin: Seq::new(
            tx.vin.len(),
            |k: int|
                InputModel {
                    txid: tx.vin[k].txid,
                    vout: tx.vin[k].vout,
                    script_sig: signature_text(tx, k, prev, key)->0,
                },
        ),
        vout: tx.vout,
    }
}

/// Whether a proof is a signature that the holder of the locking condition
/// made over the digest: the proof spells 64 bytes and the locking
/// condition 32, both in hexadecimal, and the key accepts the signature.
pub open spec fn proof_accepted(digest: Seq<char>, lock: Seq<char>, proof_text: Seq<char>) -> bool {
    &&& hex_decoding(proof_text) matches Some(signature)
    &&& signature.len() == 64
    &&& hex_decoding(lock) matches Some(public_key)
    &&& public_key.len() == 32
    &&& ed25519_accepts(encode_utf8(digest), public_key, signature)
}

/// Whether the proof of input `k` is accepted; `None` where the input has
/// no signable digest.
pub open spec fn input_verifies(tx: TransactionModel, k: int, prev: Seq<TransactionModel>) -> Option<
    bool,
> {
    match signable_digest(tx, k, prev) {
        Some(digest) => Some(
            proof_accepted(
                digest,
                referenced_output(prev, tx.vin[k])->0.script_pub_key,
                tx.vin[k].script_sig,
            ),
        ),
        None => None,
    }
}

/// Input `k` is the first whose proof is not accepted.
pub open spec fn verification_stops_at(
    tx: TransactionModel,
    prev: Seq<TransactionModel>,
    k: int,
) -> bool {
    &&& 0 <= k < tx.vin.len()
    &&& input_verifies(tx, k, prev) != Some(true)
    &&& forall|j: int| 0 <= j < k ==> #[trigger] input_verifies(tx, j, prev) == Some(true)
}

/// What signing makes of a transaction: `done` is the result, `after` the
/// transaction as it is left.
pub open spec fn sign_outcome(
    before: TransactionModel,
    after: TransactionModel,
    prev: Seq<TransactionModel>,
    key: Seq<u8>,
    done: Result<(), ChainError>,
) -> bool {
    if is_coinbase(before) {
        done is Ok && after == before
    } else if key.len() != 64 {
        done == Err::<(), ChainError>(ChainError::InvalidKey) && after == before
    } else if !all_referenced(before, prev) {
        done == Err::<(), ChainError>(ChainError::MissingReferencedTransaction) && after == before
    } else if exists|k: int| 0 <= k < before.vin.len() && (#[trigger] signable_digest(before, k, prev)) is None {
        done == Err::<(), ChainError>(ChainError::SerializationFailure) && after == before
    } else {
        done is Ok && after == signed(before, prev, key)
    }
}

/// What checking the proofs of a transaction gives.
pub open spec fn verify_outcome(
    tx: TransactionModel,
    prev: Seq<TransactionModel>,
    verified: Result<bool, ChainError>,
) -> bool {
    if is_coinbase(tx) {
        verified == Ok::<bool, ChainError>(true)
    } else if !all_referenced(tx, prev) {
        verified == Err::<bool, ChainError>(ChainError::MissingReferencedTransaction)
    } else if exists|k: int| #[trigger] verification_stops_at(tx, prev, k) {
        let k = choose|k: int| #[trigger] verification_stops_at(tx, prev, k);
        match input_verifies(tx, k, prev) {
            Some(_) => verified == Ok::<bool, ChainError>(false),
            None => verified == Err::<bool, ChainError>(ChainError::SerializationFailure),
        }
    } else {
        verified == Ok::<bool, ChainError>(true)
    }
}

/// `prev` holds, for each input of `tx` in order, the transaction of the
/// chain that a search for the input's transaction id finds.
pub open spec fn resolved_inputs(
    chain: Seq<crate::model::BlockModel>,
    tx: TransactionModel,
    prev: Seq<TransactionModel>,
) -> bool {
    &&& prev.len() == tx.vin.len()
    &&& forall|k: int| 0 <= k < prev.len() ==> resolves(chain, tx.vin[k].txid, #[trigger] prev[k])
}

/// Some input of `tx` names a transaction id that the chain lacks.
pub open spec fn names_unknown(chain: Seq<crate::model::BlockModel>, tx: TransactionModel) -> bool {
    exists|k: int| 0 <= k < tx.vin.len() && absent(chain, (#[trigger] tx.vin[k]).txid)
}

/// A coinbase transaction has the shape that marks it as one, and checking
/// its proofs gives `Ok(true)` whatever transactions are supplied.
pub proof fn lemma_coinbase_is_accepted(
    tx: TransactionModel,
    to: Seq<char>,
    data: Seq<char>,
    prev: Seq<TransactionModel>,
    verified: Result<bool, ChainError>,
)
    requires
        without_id(tx) == coinbase_body(to, data),
        verify_outcome(tx, prev, verified),
    ensures
        is_coinbase(tx),
        verified == Ok::<bool, ChainError>(true),
{
    lemma_coinbase_is_coinbase(tx, to, data);
}

/// The first input whose proof is not accepted is determined.
pub proof fn lemma_stop_is_unique(tx: TransactionModel, prev: Seq<TransactionModel>, a: int, b: int)
    requires
        verification_stops_at(tx, prev, a),
        verification_stops_at(tx, prev, b),
    ensures
        a == b,
{
    if a < b {
        assert(input_verifies(tx, a, prev) == Some(true));
    }
    if b < a {
        assert(input_verifies(tx, b, prev) == Some(true));
    }
}

/// The position of the first transaction with this id.
fn position_of(prev: &Vec<Transaction>, id: &String) -> (found: Option<usize>)
    ensures
        match found {
            Some(p) => refers_at(prev.deep_view(), id@, p as int),
            None => forall|q: int| 0 <= q < prev@.len() ==> (#[trigger] prev.deep_view()[q]).id
                != id@,
        },
{
    let mut p: usize = 0;
    while p < prev.len()
        invariant
            p <= prev@.len(),
            forall|q: int| 0 <= q < p ==> (#[trigger] prev.deep_view()[q]).id != id@,
        decreases prev@.len() - p,
    {
        assert(prev.deep_view()[p as int] == prev@[p as int]@);
        if prev[p].id == *id {
            return Some(p);
        }
        p = p + 1;
    }
    None
}

/// The locking condition of the output that `input` refers to.
fn referenced_lock(prev: &Vec<Transaction>, input: &TXInput) -> (lock: Option<String>)
    ensures
        match lock {
            Some(text) => referenced_output(prev.deep_view(), input@) matches Some(out)
                && out.script_pub_key == text@,
            None => referenced_output(prev.deep_view(), input@) is None,
        },
{
    let ghost models = prev.deep_view();
    match position_of(prev, &input.txid) {
        Some(p) => {
            proof {
                let chosen = choose|q: int| refers_at(models, input@.txid, q);
                assert(refers_at(models, input@.txid, chosen));
                assert(chosen == p);
                assert(models[p as int] == prev@[p as int]@);
            }
            let tx: &Transaction = &prev[p];
            if input.vout >= 0 && (input.vout as usize) < tx.vout.len() {
                assert(tx@.vout[input.vout as int] == tx.vout@[input.vout as int]@);
                Some(tx.vout[input.vout as usize].script_pub_key.clone())
            } else {
                None
            }
        },
        None => {
            assert forall|q: int| !refers_at(models, input@.txid, q) by {
                if 0 <= q < models.len() {
                    assert(models[q].id != input@.txid);
                }
            }
            None
        },
    }
}

/// Whether every input refers to an output of a transaction among `prev`.
fn references_hold(tx: &Transaction, prev: &Vec<Transaction>) -> (ok: bool)
    ensures
        ok == all_referenced(tx@, prev.deep_view()),
{
    let mut k: usize = 0;
    while k < tx.vin.len()
        invariant
            k <= tx.vin@.len(),
            forall|j: int|
                0 <= j < k ==> referenced_output(prev.deep_view(), #[trigger] tx@.vin[j]) is Some,
        decreases tx.vin@.len() - k,
    {
        assert(tx@.vin[k as int] == tx.vin@[k as int]@);
        if referenced_lock(prev, &tx.vin[k]).is_none() {
            return false;
        }
        k = k + 1;
    }
    true
}

/// The content hash of the copy of `tx` that input `k` is signed over.
fn redacted_hash(tx: &Transaction, k: usize, lock: &String) -> (hashed: Result<String, ChainError>)
    requires
        k < tx@.vin.len(),
    ensures
        match hashed {
            Ok(text) => content_hash(redacted(tx@, k as int, lock@)) == Some(text@),
            Err(e) => e == ChainError::SerializationFailure && content_hash(
                redacted(tx@, k as int, lock@),
            ) is None,
        },
{
    let mut vin: Vec<TXInput> = Vec::new();
    let mut i: usize = 0;
    while i < tx.vin.len()
        invariant
            i <= tx.vin@.len(),
            vin@.len() == i,
            forall|j: int|
                0 <= j < i ==> (#[trigger] vin@[j])@ == redacted(tx@, k as int, lock@).vin[j],
        decreases tx.vin@.len() - i,
    {
        assert(tx@.vin[i as int] == tx.vin@[i as int]@);
        let script_sig: String = if i == k {
            lock.clone()
        } else {
            String::new()
        };
        vin.push(TXInput { txid: tx.vin[i].txid.clone(), vout: tx.vin[i].vout, script_sig });
        i = i + 1;
    }
    let copy = Transaction { id: tx.id.clone(), vin, vout: tx.vout.clone() };
    proof {
        assert(copy.vin.deep_view() =~= redacted(tx@, k as int, lock@).vin);
        assert(copy.vout.deep_view() =~= tx@.vout);
    }
    copy.hash()
}

impl Transaction {
    /// Signs every input: the proof of input `k` becomes the signature,
    /// written in hexadecimal, of the digest of the copy that input `k` is
    /// signed over. A coinbase transaction is left as it is.
    ///
    /// Fails with `InvalidKey` when the key does not have 64 bytes, with
    /// `MissingReferencedTransaction` when an input refers to an output
    /// that no transaction among `prev_txs` has, and with
    /// `SerializationFailure` when an input has no signable digest. On
    /// failure the transaction is left as it was.
    pub fn sign(&mut self, private_key: &[u8], prev_txs: &Vec<Transaction>) -> (done: Result<
        (),
        ChainError,
    >)
        ensures
            sign_outcome(old(self)@, final(self)@, prev_txs.deep_view(), private_key@, done),
    {
        if self.is_coinbase() {
            return Ok(());
        }
        if private_key.len() != 64 {
            return Err(ChainError::InvalidKey);
        }
        if !references_hold(self, prev_txs) {
            return Err(ChainError::MissingReferencedTransaction);
        }
        let ghost start = self@;
        let ghost prev = prev_txs.deep_view();
        let mut vin: Vec<TXInput> = Vec::new();
        let mut k: usize = 0;
        while k < self.vin.len()
            invariant
                self@ == start,
                prev == prev_txs.deep_view(),
                private_key@.len() == 64,
                all_referenced(start, prev),
                k <= self.vin@.len(),
                vin@.len() == k,
                forall|j: int| 0 <= j < k ==> (#[trigger] signable_digest(start, j, prev)) is Some,
                forall|j: int|
                    0 <= j < k ==> (#[trigger] vin@[j])@ == signed(start, prev, private_key@).vin[j],
            decreases self.vin@.len() - k,
        {
            assert(start.vin[k as int] == self.vin@[k as int]@);
            let lock: String = match referenced_lock(prev_txs, &self.vin[k]) {
                Some(lock) => lock,
                None => {
                    return Err(ChainError::MissingReferencedTransaction);
                },
            };
            let digest: String = match redacted_hash(self, k, &lock) {
                Ok(digest) => digest,
                Err(e) => {
                    assert(signable_digest(start, k as int, prev) is None);
                    return Err(e);
                },
            };
            assert(signable_digest(start, k as int, prev) == Some(digest@));
            let message: Vec<u8> = digest.as_str().as_bytes_vec();
            let signature: Vec<u8> = sign_bytes(message.as_slice(), private_key);
            let script_sig: String = encode_hex(signature.as_slice());
            vin.push(TXInput { txid: self.vin[k].txid.clone(), vout: self.vin[k].vout, script_sig });
            k = k + 1;
        }
        self.vin = vin;
        assert(self.vin.deep_view() =~= signed(start, prev, private_key@).vin);
        Ok(())
    }

    /// Checks the proof of every input against the locking condition of the
    /// output it refers to. A coinbase transaction is accepted as it is.
    ///
    /// Fails with `MissingReferencedTransaction` when an input refers to an
    /// output that no transaction among `prev_txs` has. Otherwise the
    /// inputs are checked in order; the first whose proof is not accepted
    /// gives `Ok(false)`, or `SerializationFailure` if it has no signable
    /// digest.
    pub fn verify(&self, prev_txs: &Vec<Transaction>) -> (verified: Result<bool, ChainError>)
        ensures
            verify_outcome(self@, prev_txs.deep_view(), verified),
    {
        if self.is_coinbase() {
            return Ok(true);
        }
        if !references_hold(self, prev_txs) {
            return Err(ChainError::MissingReferencedTransaction);
        }
        let ghost prev = prev_txs.deep_view();
        let mut k: usize = 0;
        while k < self.vin.len()
            invariant
                prev == prev_txs.deep_view(),
                !is_coinbase(self@),
                all_referenced(self@, prev),
                k <= self.vin@.len(),
                forall|j: int| 0 <= j < k ==> #[trigger] input_verifies(self@, j, prev) == Some(true),
            decreases self.vin@.len() - k,
        {
            assert(self@.vin[k as int] == self.vin@[k as int]@);
            let lock: String = match referenced_lock(prev_txs, &self.vin[k]) {
                Some(lock) => lock,
                None => {
                    return Err(ChainError::MissingReferencedTransaction);
                },
            };
            let digest: String = match redacted_hash(self, k, &lock) {
                Ok(digest) => digest,
                Err(e) => {
                    proof {
                        assert(input_verifies(self@, k as int, prev) is None);
                        assert(verification_stops_at(self@, prev, k as int));
                        let c = choose|c: int| #[trigger] verification_stops_at(self@, prev, c);
                        lemma_stop_is_unique(self@, prev, c, k as int);
                    }
                    return Err(e);
                },
            };
            assert(signable_digest(self@, k as int, prev) == Some(digest@));
            if !proof_holds(&digest, &lock, &self.vin[k].script_sig) {
                proof {
                    assert(input_verifies(self@, k as int, prev) == Some(false));
                    assert(verification_stops_at(self@, prev, k as int));
                    let c = choose|c: int| #[trigger] verification_stops_at(self@, prev, c);
                    lemma_stop_is_unique(self@, prev, c, k as int);
                }
                return Ok(false);
            }
            k = k + 1;
        }
        Ok(true)
    }
}

/// Whether `proof_text` is a signature over `digest` that the key spelled
/// by `lock` accepts.
pub fn proof_holds(digest: &String, lock: &String, proof_text: &String) -> (ok: bool)
    ensures
        ok == proof_accepted(digest@, lock@, proof_text@),
{
    let signature: Vec<u8> = match decode_hex(proof_text.as_str()) {
        Some(bytes) => bytes,
        None => {
            return false;
        },
    };
    if signature.len() != 64 {
        return false;
    }
    let public_key: Vec<u8> = match decode_hex(lock.as_str()) {
        Some(bytes) => bytes,
        None => {
            return false;
        },
    };
    if public_key.len() != 32 {
        return false;
    }
    let message: Vec<u8> = digest.as_str().as_bytes_vec();
    accepts_bytes(message.as_slice(), public_key.as_slice(), signature.as_slice())
}

impl Blockchain {
    /// Signs the inputs of `tx` over the transactions of the ledger that
    /// they refer to.
    ///
    /// Fails with `TransactionNotFound` when the ledger holds no
    /// transaction with the id that an input names; otherwise as
    /// `Transaction::sign` does.
    pub fn sign_transaction(&self, tx: &mut Transaction, private_key: &[u8]) -> (done: Result<
        (),
        ChainError,
    >)
        requires
            self.wf(),
        ensures
            names_unknown(self@, old(tx)@) ==> done == Err::<(), ChainError>(
                ChainError::TransactionNotFound,
            ) && final(tx)@ == old(tx)@,
            !names_unknown(self@, old(tx)@) ==> exists|prev: Seq<TransactionModel>|
                #[trigger] resolved_inputs(self@, old(tx)@, prev) && sign_outcome(
                    old(tx)@,
                    final(tx)@,
                    prev,
                    private_key@,
                    done,
                ),
    {
        let prev: Vec<Transaction> = match self.get_prev_TXs(tx) {
            Ok(prev) => prev,
            Err(e) => {
                return Err(e);
            },
        };
        proof {
            lemma_resolved_are_present(self@, tx@, prev.deep_view());
            assert(resolved_inputs(self@, tx@, prev.deep_view())) by {
                assert forall|k: int| 0 <= k < prev@.len() implies resolves(
                    self@,
                    tx@.vin[k].txid,
                    #[trigger] prev.deep_view()[k],
                ) by {
                    assert(prev.deep_view()[k] == prev@[k]@);
                }
            }
        }
        tx.sign(private_key, &prev)
    }

    /// Checks the proofs of the inputs of `tx` against the transactions of
    /// the ledger that they refer to.
    ///
    /// Fails with `TransactionNotFound` when the ledger holds no
    /// transaction with the id that an input names; otherwise as
    /// `Transaction::verify` does.
    pub fn verify_transaction(&self, tx: &mut Transaction) -> (verified: Result<bool, ChainError>)
        requires
            self.wf(),
        ensures
            final(tx)@ == old(tx)@,
            names_unknown(self@, old(tx)@) ==> verified == Err::<bool, ChainError>(
                ChainError::TransactionNotFound,
            ),
            !names_unknown(self@, old(tx)@) ==> exists|prev: Seq<TransactionModel>|
                #[trigger] resolved_inputs(self@, old(tx)@, prev) && verify_outcome(
                    old(tx)@,
                    prev,
                    verified,
                ),
    {
        let prev: Vec<Transaction> = match self.get_prev_TXs(tx) {
            Ok(prev) => prev,
            Err(e) => {
                return Err(e);
            },
        };
        proof {
            lemma_resolved_are_present(self@, tx@, prev.deep_view());
            assert(resolved_inputs(self@, tx@, prev.deep_view())) by {
                assert forall|k: int| 0 <= k < prev@.len() implies resolves(
                    self@,
                    tx@.vin[k].txid,
                    #[trigger] prev.deep_view()[k],
                ) by {
                    assert(prev.deep_view()[k] == prev@[k]@);
                }
            }
        }
        tx.verify(&prev)
    }
}

/// Where each input's transaction was found in the chain, no input names
/// an id that the chain lacks.
proof fn lemma_resolved_are_present(
    chain: Seq<crate::model::BlockModel>,
    tx: TransactionModel,
    prev: Seq<TransactionModel>,
)
    requires
        prev.len() == tx.vin.len(),
        forall|k: int| 0 <= k < prev.len() ==> resolves(chain, tx.vin[k].txid, #[trigger] prev[k]),
    ensures
        !names_unknown(chain, tx),
{
    assert forall|k: int| 0 <= k < tx.vin.len() implies !absent(
        chain,
        (#[trigger] tx.vin[k]).txid,
    ) by {
        assert(resolves(chain, tx.vin[k].txid, prev[k]));
    }
}

} // verus!

use vstd::prelude::*;
use vstd::string::*;
use crate::codec::encode_transaction_fields;
use crate::digest::hash_hex;
use crate::error::ChainError;
use crate::model::{
    coinbase_body, content_hash, input_fields, is_coinbase, output_fields, without_id,
    InputModel, OutputModel, TransactionModel, REWARD,
};

verus! {

/// A transaction input.
#[derive(Debug)]
pub struct TXInput {
    pub txid: String,
    pub vout: i32,
    pub script_sig: String,
}

/// A transaction output.
#[derive(Debug)]
pub struct TXOutput {
    pub value: i32,
    pub script_pub_key: String,
}

/// A transaction: inputs that consume earlier outputs, and new outputs.
#[derive(Debug)]
pub struct Transaction {
    pub id: String,
    pub vin: Vec<TXInput>,
    pub vout: Vec<TXOutput>,
}

impl View for TXInput {
    type V = InputModel;

    open spec fn view(&self) -> InputModel {
        InputModel { txid: self.txid@, vout: self.vout, script_sig: self.script_sig@ }
    }
}

impl DeepView for TXInput {
    type V = InputModel;

    open spec fn deep_view(&self) -> InputModel {
        self@
    }
}

impl View for TXOutput {
    type V = OutputModel;

    open spec fn view(&self) -> OutputModel {
        OutputModel { value: self.value, script_pub_key: self.script_pub_key@ }
    }
}

impl DeepView for TXOutput {
    type V = OutputModel;

    open spec fn deep_view(&self) -> OutputModel {
        self@
    }
}

impl View for Transaction {
    type V = TransactionModel;

    open spec fn view(&self) -> TransactionModel {
        TransactionModel {
            id: self.id@,
            vin: self.vin.deep_view(),
            vout: self.vout.deep_view(),
        }
    }
}

impl DeepView for Transaction {
    type V = TransactionModel;

    open spec fn deep_view(&self) -> TransactionModel {
        self@
    }
}

impl Clone for TXInput {
    fn clone(&self) -> (copy: Self)
        ensures
            copy == *self,
    {
        TXInput { txid: self.txid.clone(), vout: self.vout, script_sig: self.script_sig.clone() }
    }
}

impl Clone for TXOutput {
    fn clone(&self) -> (copy: Self)
        ensures
            copy == *self,
    {
        TXOutput { value: self.value, script_pub_key: self.script_pub_key.clone() }
    }
}

impl Clone for Transaction {
    fn clone(&self) -> (copy: Self)
        ensures
            copy@ == self@,
    {
        let copy = Transaction {
            id: self.id.clone(),
            vin: self.vin.clone(),
            vout: self.vout.clone(),
        };
        assert(copy.vin.deep_view() =~= self.vin.deep_view());
        assert(copy.vout.deep_view() =~= self.vout.deep_view());
        copy
    }
}

fn input_tuples(vin: &Vec<TXInput>) -> (fields: Vec<(String, i32, String)>)
    ensures
        fields.deep_view() == input_fields(vin.deep_view()),
{
    let mut fields: Vec<(String, i32, String)> = Vec::new();
    let mut i: usize = 0;
    while i < vin.len()
        invariant
            i <= vin@.len(),
            fields@.len() == i,
            forall|j: int|
                0 <= j < i ==> (#[trigger] fields@[j]).deep_view() == (
                    vin@[j].txid@,
                    vin@[j].vout,
                    vin@[j].script_sig@,
                ),
        decreases vin@.len() - i,
    {
        fields.push((vin[i].txid.clone(), vin[i].vout, vin[i].script_sig.clone()));
        i = i + 1;
    }
    assert(fields.deep_view() =~= input_fields(vin.deep_view()));
    fields
}

fn output_tuples(vout: &Vec<TXOutput>) -> (fields: Vec<(i32, String)>)
    ensures
        fields.deep_view() == output_fields(vout.deep_view()),
{
    let mut fields: Vec<(i32, String)> = Vec::new();
    let mut i: usize = 0;
    while i < vout.len()
        invariant
            i <= vout@.len(),
            fields@.len() == i,
            forall|j: int|
                0 <= j < i ==> (#[trigger] fields@[j]).deep_view() == (
                    vout@[j].value,
                    vout@[j].script_pub_key@,
                ),
        decreases vout@.len() - i,
    {
        fields.push((vout[i].value, vout[i].script_pub_key.clone()));
        i = i + 1;
    }
    assert(fields.deep_view() =~= output_fields(vout.deep_view()));
    fields
}

impl Transaction {
    /// A transaction that issues the block reward to `to`. `data` is the
    /// memo its input carries; an empty one is replaced by a default that
    /// names `to`. The id is the hash of the rest.
    pub fn new_coinbase(to: String, data: String) -> (made: Result<Transaction, ChainError>)
        ensures
            match made {
                Ok(tx) => {
                    &&& content_hash(coinbase_body(to@, data@)) == Some(tx@.id)
                    &&& without_id(tx@) == coinbase_body(to@, data@)
                    &&& is_coinbase(tx@)
                },
                Err(e) => {
                    &&& e == ChainError::SerializationFailure
                    &&& content_hash(coinbase_body(to@, data@)) is None
                },
            },
    {
        let mut memo: String = data;
        if memo.as_str().is_empty() {
            memo.append("Reward to '");
            memo.append(to.as_str());
            memo.append("' ");
        }
        let mut tx = Transaction {
            id: String::new(),
            vin: vec![TXInput { txid: String::new(), vout: -1, script_sig: memo }],
            vout: vec![TXOutput { value: REWARD, script_pub_key: to }],
        };
        proof {
            assert(tx.vin.deep_view() =~= coinbase_body(to@, data@).vin);
            assert(tx.vout.deep_view() =~= coinbase_body(to@, data@).vout);
            assert(tx@ == coinbase_body(to@, data@));
        }
        match tx.set_id() {
            Ok(()) => Ok(tx),
            Err(e) => Err(e),
        }
    }

    /// The hash that identifies this transaction: it covers the inputs and
    /// outputs, and leaves the stored id out.
    pub fn hash(&self) -> (hashed: Result<String, ChainError>)
        ensures
            match hashed {
                Ok(text) => content_hash(self@) == Some(text@),
                Err(e) => e == ChainError::SerializationFailure && content_hash(self@) is None,
            },
    {
        let id: String = String::new();
        let vin = input_tuples(&self.vin);
        let vout = output_tuples(&self.vout);
        match encode_transaction_fields(&id, &vin, &vout) {
            Ok(bytes) => Ok(hash_hex(bytes.as_slice())),
            Err(_) => Err(ChainError::SerializationFailure),
        }
    }

    /// Sets the id to the hash of the rest; on failure nothing changes.
    pub fn set_id(&mut self) -> (done: Result<(), ChainError>)
        ensures
            without_id(final(self)@) == without_id(old(self)@),
            match done {
                Ok(()) => content_hash(old(self)@) == Some(final(self)@.id),
                Err(e) => {
                    &&& e == ChainError::SerializationFailure
                    &&& content_hash(old(self)@) is None
                    &&& final(self)@ == old(self)@
                },
            },
    {
        match self.hash() {
            Ok(text) => {
                self.id = text;
                Ok(())
            },
            Err(e) => Err(e),
        }
    }

    /// Whether this transaction issues new value instead of spending outputs.
    pub fn is_coinbase(&self) -> (coinbase: bool)
        ensures
            coinbase == is_coinbase(self@),
    {
        self.vin.len() == 1 && self.vin[0].txid.as_str().is_empty() && self.vin[0].vout == -1
    }
}

impl TXInput {
    /// Whether `unlocking_data` is the proof this input carries.
    pub fn can_unlock_output_with(&self, unlocking_data: &str) -> (unlocks: bool)
        ensures
            unlocks == (self.script_sig@ == unlocking_data@),
    {
        let data: String = unlocking_data.to_owned();
        self.script_sig == data
    }
}

impl TXOutput {
    /// Whether `unlocking_data` is the condition this output is locked to.
    pub fn can_be_unlock_with(&self, unlocking_data: &str) -> (unlocks: bool)
        ensures
            unlocks == (self.script_pub_key@ == unlocking_data@),
    {
        let data: String = unlocking_data.to_owned();
        self.script_pub_key == data
    }
}

} // verus!

use vstd::prelude::*;
use vstd::string::*;

verus! {

/// Why an operation on the ledger failed.
#[derive(Debug, Clone, Copy, PartialEq, Eq, Structural)]
pub enum ChainError {
    /// A ledger was opened although no tip was ever stored.
    UninitializedLedger,
    /// No block of the chain holds a transaction with the wanted id.
    TransactionNotFound,
    /// An input refers to a transaction, or to an output of it, that was not supplied.
    MissingReferencedTransaction,
    /// The indexed outputs of the sender do not cover the amount.
    InsufficientFunds,
    /// A block does not satisfy the proof-of-work rule, or no nonce makes it do so.
    InvalidProofOfWork,
    /// A value could not be turned into bytes, or bytes into a value.
    SerializationFailure,
    /// The persisted store reported an error.
    StoreIOFailure,
    /// The stored blocks do not form one chain from the tip back to a genesis block.
    BrokenChain,
    /// The chain has reached the largest height that can be represented.
    HeightOverflow,
    /// The system clock reads a time before the Unix epoch.
    ClockFailure,
    /// A signing key does not have 64 bytes.
    InvalidKey,
}

/// The one-line description of each kind of error.
pub open spec fn message_text(e: ChainError) -> Seq<char> {
    match e {
        ChainError::UninitializedLedger => "Must create a new block database first"@,
        ChainError::TransactionNotFound => "Transaction is not found"@,
        ChainError::MissingReferencedTransaction => "A referenced transaction is missing"@,
        ChainError::InsufficientFunds => "Not enough balance"@,
        ChainError::InvalidProofOfWork => "The proof of work is invalid"@,
        ChainError::SerializationFailure => "A record could not be encoded or decoded"@,
        ChainError::StoreIOFailure => "The store failed"@,
        ChainError::BrokenChain => "The stored blocks do not form a chain"@,
        ChainError::HeightOverflow => "The chain cannot grow any higher"@,
        ChainError::ClockFailure => "The system clock is before the Unix epoch"@,
        ChainError::InvalidKey => "The signing key does not have 64 bytes"@,
    }
}

impl ChainError {
    /// A one-line description for people.
    pub fn message(&self) -> (text: String)
        ensures
            text@ == message_text(*self),
    {
        let text: &'static str = match self {
            ChainError::UninitializedLedger => "Must create a new block database first",
            ChainError::TransactionNotFound => "Transaction is not found",
            ChainError::MissingReferencedTransaction => "A referenced transaction is missing",
            ChainError::InsufficientFunds => "Not enough balance",
            ChainError::InvalidProofOfWork => "The proof of work is invalid",
            ChainError::SerializationFailure => "A record could not be encoded or decoded",
            ChainError::StoreIOFailure => "The store failed",
            ChainError::BrokenChain => "The stored blocks do not form a chain",
            ChainError::HeightOverflow => "The chain cannot grow any higher",
            ChainError::ClockFailure => "The system clock is before the Unix epoch",
            ChainError::InvalidKey => "The signing key does not have 64 bytes",
        };
        String::from_str(text)
    }
}

} // verus!

use blockchain_ledger::error::ChainError;
use blockchain_ledger::hex::{decode_hex, encode_hex};

#[test]
fn encode_hex_writes_two_lowercase_digits_per_byte() {
    assert_eq!(encode_hex(&[]), "");
    assert_eq!(encode_hex(&[0x00]), "00");
    assert_eq!(encode_hex(&[0x0f, 0xa0, 0xff]), "0fa0ff");
    assert_eq!(encode_hex(&[52, 32]), "3420");
    assert_eq!(encode_hex(&[0xde, 0xad, 0xbe, 0xef]), "deadbeef");
}

#[test]
fn decode_hex_reads_lowercase_digits() {
    assert_eq!(decode_hex(""), Some(vec![]));
    assert_eq!(decode_hex("00"), Some(vec![0]));
    assert_eq!(decode_hex("0fa0ff"), Some(vec![0x0f, 0xa0, 0xff]));
    assert_eq!(decode_hex("deadbeef"), Some(vec![0xde, 0xad, 0xbe, 0xef]));
}

#[test]
fn decode_hex_refuses_other_text() {
    assert_eq!(decode_hex("0"), None);
    assert_eq!(decode_hex("abc"), None);
    assert_eq!(decode_hex("0g"), None);
    assert_eq!(decode_hex("g0"), None);
    assert_eq!(decode_hex("AB"), None);
    assert_eq!(decode_hex("  "), None);
    assert_eq!(decode_hex("é0"), None);
}

#[test]
fn hex_round_trip_on_every_byte() {
    let mut bytes: Vec<u8> = Vec::new();
    for b in 0..=255u8 {
        bytes.push(b);
    }
    let text = encode_hex(&bytes);
    assert_eq!(text.len(), 512);
    assert_eq!(decode_hex(&text), Some(bytes));
}

#[test]
fn every_error_has_a_message() {
    let all = [
        ChainError::UninitializedLedger,
        ChainError::TransactionNotFound,
        ChainError::MissingReferencedTransaction,
        ChainError::InsufficientFunds,
        ChainError::InvalidProofOfWork,
        ChainError::SerializationFailure,
        ChainError::StoreIOFailure,
        ChainError::BrokenChain,
        ChainError::HeightOverflow,
        ChainError::ClockFailure,
        ChainError::InvalidKey,
    ];
    for e in all {
        assert!(!e.message().is_empty());
    }
    assert_eq!(ChainError::TransactionNotFound.message(), "Transaction is not found");
    assert_eq!(
        ChainError::UninitializedLedger.message(),
        "Must create a new block database first"
    );
}

use blockchain_ledger::blockchain::Blockchain;
use blockchain_ledger::error::ChainError;
use blockchain_ledger::hex::encode_hex;
use blockchain_ledger::signing::proof_holds;
use blockchain_ledger::transaction::{TXInput, TXOutput, Transaction};
use blockchain_ledger::utxoset::UTXOSet;
use crypto::ed25519::keypair;

const STAMP: u128 = 1_700_000_000_000;

fn keys(seed: u8) -> (Vec<u8>, String) {
    let (secret, public) = keypair(&[seed; 32]);
    (secret.to_vec(), encode_hex(&public))
}

fn funded(address: &str) -> UTXOSet {
    let bc = Blockchain::create_blockchain_at(String::from(address), STAMP).unwrap();
    let mut set = UTXOSet::new(bc);
    set.reindex();
    set
}

#[test]
fn coinbase_verifies_whatever_is_referenced() {
    let tx = Transaction::new_coinbase(String::from("anyone"), String::from("memo")).unwrap();
    assert!(tx.is_coinbase());
    assert_eq!(tx.verify(&vec![]), Ok(true));
    let other = Transaction::new_coinbase(String::from("else"), String::new()).unwrap();
    assert_eq!(tx.verify(&vec![other]), Ok(true));
}

#[test]
fn signing_leaves_a_coinbase_as_it_is() {
    let (secret, _) = keys(1);
    let mut tx = Transaction::new_coinbase(String::from("anyone"), String::from("memo")).unwrap();
    assert_eq!(tx.sign(&secret, &vec![]), Ok(()));
    assert_eq!(tx.vin[0].script_sig, "memo");
}

#[test]
fn signed_spend_verifies() {
    let (secret, address) = keys(7);
    let set = funded(&address);
    let mut tx = Transaction::new_utxo(&address, "receiver", 40, &set).unwrap();
    let prev = set.blockchain.get_prev_TXs(&tx).unwrap();
    assert_eq!(tx.verify(&prev), Ok(false));
    let id = tx.id.clone();
    assert_eq!(tx.sign(&secret, &prev), Ok(()));
    assert_eq!(tx.id, id);
    assert_eq!(tx.vin.len(), 1);
    assert_eq!(tx.vin[0].vout, 0);
    assert_eq!(tx.vin[0].script_sig.len(), 128);
    assert_eq!(tx.vout.len(), 2);
    assert_eq!(tx.verify(&prev), Ok(true));
}

#[test]
fn signature_is_bound_to_the_outputs() {
    let (secret, address) = keys(7);
    let set = funded(&address);
    let mut tx = Transaction::new_utxo(&address, "receiver", 40, &set).unwrap();
    let prev = set.blockchain.get_prev_TXs(&tx).unwrap();
    tx.sign(&secret, &prev).unwrap();
    let mut changed = tx.clone();
    changed.vout[0] = TXOutput { value: 41, script_pub_key: String::from("receiver") };
    assert_eq!(changed.verify(&prev), Ok(false));
    let mut redirected = tx.clone();
    redirected.vout[0] = TXOutput { value: 40, script_pub_key: String::from("thief") };
    assert_eq!(redirected.verify(&prev), Ok(false));
}

#[test]
fn signature_of_another_key_is_refused() {
    let (_, address) = keys(7);
    let (wrong, _) = keys(8);
    let set = funded(&address);
    let mut tx = Transaction::new_utxo(&address, "receiver", 40, &set).unwrap();
    let prev = set.blockchain.get_prev_TXs(&tx).unwrap();
    tx.sign(&wrong, &prev).unwrap();
    assert_eq!(tx.verify(&prev), Ok(false));
}

#[test]
fn proof_must_be_hexadecimal_text_of_the_right_length() {
    let (secret, address) = keys(7);
    let set = funded(&address);
    let mut tx = Transaction::new_utxo(&address, "receiver", 40, &set).unwrap();
    let prev = set.blockchain.get_prev_TXs(&tx).unwrap();
    tx.sign(&secret, &prev).unwrap();
    let good = tx.vin[0].script_sig.clone();
    for bad in [String::new(), String::from("zz"), good[2..].to_string(), good.to_uppercase()] {
        let mut other = tx.clone();
        other.vin[0] = TXInput { txid: tx.vin[0].txid.clone(), vout: 0, script_sig: bad };
        assert_eq!(other.verify(&prev), Ok(false));
    }
    assert!(!proof_holds(&String::from("digest"), &address, &String::from("00")));
    assert!(!proof_holds(&String::from("digest"), &String::from("not a key"), &good));
}

#[test]
fn missing_reference_is_an_error() {
    let (secret, address) = keys(7);
    let set = funded(&address);
    let mut tx = Transaction::new_utxo(&address, "receiver", 40, &set).unwrap();
    let before = tx.vin[0].script_sig.clone();
    assert_eq!(tx.sign(&secret, &vec![]), Err(ChainError::MissingReferencedTransaction));
    assert_eq!(tx.vin[0].script_sig, before);
    assert_eq!(tx.verify(&vec![]), Err(ChainError::MissingReferencedTransaction));
    let prev = set.blockchain.get_prev_TXs(&tx).unwrap();
    let mut beyond = tx.clone();
    beyond.vin[0] = TXInput { txid: tx.vin[0].txid.clone(), vout: 5, script_sig: String::new() };
    assert_eq!(beyond.sign(&secret, &prev), Err(ChainError::MissingReferencedTransaction));
    assert_eq!(beyond.verify(&prev), Err(ChainError::MissingReferencedTransaction));
    let mut below = tx.clone();
    below.vin[0] = TXInput { txid: tx.vin[0].txid.clone(), vout: -2, script_sig: String::new() };
    assert_eq!(below.verify(&prev), Err(ChainError::MissingReferencedTransaction));
}

#[test]
fn ledger_signs_and_verifies_over_its_own_transactions() {
    let (secret, address) = keys(9);
    let mut set = funded(&address);
    let mut tx = Transaction::new_utxo(&address, "receiver", 100, &set).unwrap();
    assert_eq!(set.blockchain.sign_transaction(&mut tx, &secret), Ok(()));
    assert_eq!(set.blockchain.verify_transaction(&mut tx), Ok(true));
    let block = set.blockchain.add_block_at(vec![tx], STAMP + 1).unwrap();
    set.update(&block);
    assert_eq!(set.get_balance("receiver"), 100);
    assert_eq!(set.get_balance(&address), 0);
}

#[test]
fn ledger_reports_an_unknown_input_transaction() {
    let (secret, address) = keys(9);
    let set = funded(&address);
    let mut tx = Transaction {
        id: String::new(),
        vin: vec![TXInput { txid: String::from("gone"), vout: 0, script_sig: String::new() }],
        vout: vec![],
    };
    assert_eq!(
        set.blockchain.sign_transaction(&mut tx, &secret),
        Err(ChainError::TransactionNotFound)
    );
    assert_eq!(set.blockchain.verify_transaction(&mut tx), Err(ChainError::TransactionNotFound));
    let mut cb = Transaction::new_coinbase(String::from("x"), String::from("memo")).unwrap();
    assert_eq!(set.blockchain.verify_transaction(&mut cb), Err(ChainError::TransactionNotFound));
}

#[test]
fn a_key_of_another_length_is_refused() {
    let (secret, address) = keys(7);
    let set = funded(&address);
    let mut tx = Transaction::new_utxo(&address, "receiver", 40, &set).unwrap();
    let prev = set.blockchain.get_prev_TXs(&tx).unwrap();
    assert_eq!(tx.sign(&secret[..63], &prev), Err(ChainError::InvalidKey));
    assert_eq!(tx.sign(&[], &prev), Err(ChainError::InvalidKey));
    let mut longer = secret.clone();
    longer.push(0);
    assert_eq!(tx.sign(&longer, &prev), Err(ChainError::InvalidKey));
    assert_eq!(tx.vin[0].script_sig, address);
    assert_eq!(
        set.blockchain.sign_transaction(&mut tx, &secret[..10]),
        Err(ChainError::InvalidKey)
    );
    let mut cb = Transaction::new_coinbase(String::from("x"), String::from("memo")).unwrap();
    assert_eq!(cb.sign(&[], &vec![]), Ok(()));
}

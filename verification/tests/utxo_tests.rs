use blockchain_ledger::blockchain::Blockchain;
use blockchain_ledger::error::ChainError;
use blockchain_ledger::transaction::{TXInput, TXOutput, Transaction};
use blockchain_ledger::utxoset::{UTXOSet, UnspentOutput};

const STAMP: u128 = 1_700_000_000_000;
const GENESIS_ID: &str = "81c3a48229f8e517029809709f208e686f85caf5d2eff4a8dac33df7b8643ef2";

fn coinbase(to: &str, memo: &str) -> Transaction {
    Transaction::new_coinbase(String::from(to), String::from(memo)).unwrap()
}

fn fresh_set() -> UTXOSet {
    let bc = Blockchain::create_blockchain_at(String::from("A"), STAMP).unwrap();
    let mut set = UTXOSet::new(bc);
    set.reindex();
    set
}

fn keys(entries: &Vec<UnspentOutput>) -> Vec<(String, usize, i32, String)> {
    entries
        .iter()
        .map(|e| (e.txid.clone(), e.vout, e.output.value, e.output.script_pub_key.clone()))
        .collect()
}

fn sum(entries: &Vec<UnspentOutput>) -> i32 {
    entries.iter().map(|e| e.output.value).sum()
}

#[test]
fn genesis_reward_is_spendable() {
    let set = fresh_set();
    let mine = set.find_spendable_outputs("A");
    assert_eq!(mine.len(), 1);
    assert_eq!(mine[0].output.value, 100);
    assert_eq!(mine[0].txid, GENESIS_ID);
    assert_eq!(mine[0].vout, 0);
    assert_eq!(set.find_spendable_outputs("B").len(), 0);
    assert_eq!(set.count_transactions(), 1);
    assert_eq!(set.get_balance("A"), 100);
    assert_eq!(set.get_balance("B"), 0);
}

#[test]
fn spending_forty_leaves_change_and_reward() {
    let mut set = fresh_set();
    let tx = Transaction::new_utxo("A", "B", 40, &set).unwrap();
    let cbtx = coinbase("A", "reward!");
    let block = set.blockchain.add_block_at(vec![cbtx, tx], STAMP + 1).unwrap();
    set.update(&block);
    let a = set.find_spendable_outputs("A");
    let b = set.find_spendable_outputs("B");
    assert_eq!(sum(&a), 160);
    assert_eq!(sum(&b), 40);
    assert_eq!(a.len(), 2);
    assert_eq!(a[0].output.value, 100);
    assert_eq!(a[1].output.value, 60);
    assert_eq!(a[1].vout, 1);
    assert_eq!(b.len(), 1);
    assert_eq!(b[0].vout, 0);
    assert_eq!(set.get_balance("A"), 160);
    assert_eq!(set.get_balance("B"), 40);
    assert_eq!(set.count_transactions(), 2);
    let outs = set.find_utxo("A");
    assert_eq!(outs.outputs.len(), 2);
    assert_eq!(outs.outputs[0].value + outs.outputs[1].value, 160);
}

#[test]
fn second_spend_of_the_same_output_fails() {
    let mut set = fresh_set();
    let first = Transaction::new_utxo("A", "B", 100, &set).unwrap();
    let block = set.blockchain.add_block_at(vec![first], STAMP + 1).unwrap();
    set.update(&block);
    assert_eq!(set.find_spendable_outputs("A").len(), 0);
    assert_eq!(
        Transaction::new_utxo("A", "C", 100, &set).err(),
        Some(ChainError::InsufficientFunds)
    );
    assert_eq!(
        Transaction::new_utxo("A", "C", 1, &set).err(),
        Some(ChainError::InsufficientFunds)
    );
    assert_eq!(set.get_balance("B"), 100);
}

#[test]
fn spending_more_than_the_balance_fails() {
    let set = fresh_set();
    assert_eq!(
        Transaction::new_utxo("A", "B", 101, &set).err(),
        Some(ChainError::InsufficientFunds)
    );
    assert_eq!(
        Transaction::new_utxo("B", "A", 1, &set).err(),
        Some(ChainError::InsufficientFunds)
    );
    assert_eq!(
        Transaction::new_utxo("A", "B", i32::MAX, &set).err(),
        Some(ChainError::InsufficientFunds)
    );
    assert_eq!(set.utxos.len(), 1);
}

#[test]
fn spend_takes_as_many_entries_as_needed_and_returns_the_rest() {
    let mut set = fresh_set();
    let block = set
        .blockchain
        .add_block_at(vec![coinbase("A", "r1"), coinbase("A", "r2")], STAMP + 1)
        .unwrap();
    set.update(&block);
    assert_eq!(set.get_balance("A"), 300);
    let exact = Transaction::new_utxo("A", "B", 100, &set).unwrap();
    assert_eq!(exact.vin.len(), 1);
    assert_eq!(exact.vin[0].txid, GENESIS_ID);
    assert_eq!(exact.vin[0].vout, 0);
    assert_eq!(exact.vin[0].script_sig, "A");
    assert_eq!(exact.vout.len(), 1);
    assert_eq!(exact.vout[0].value, 100);
    assert_eq!(exact.vout[0].script_pub_key, "B");
    assert_eq!(exact.hash().unwrap(), exact.id);
    let more = Transaction::new_utxo("A", "B", 150, &set).unwrap();
    assert_eq!(more.vin.len(), 2);
    assert_eq!(more.vin[1].txid, coinbase("A", "r1").id);
    assert_eq!(more.vout.len(), 2);
    assert_eq!(more.vout[0].value, 150);
    assert_eq!(more.vout[0].script_pub_key, "B");
    assert_eq!(more.vout[1].value, 50);
    assert_eq!(more.vout[1].script_pub_key, "A");
    let all = Transaction::new_utxo("A", "B", 300, &set).unwrap();
    assert_eq!(all.vin.len(), 3);
    assert_eq!(all.vout.len(), 1);
    assert_eq!(
        Transaction::new_utxo("A", "B", 301, &set).err(),
        Some(ChainError::InsufficientFunds)
    );
}

#[test]
fn spend_id_is_the_digest_of_the_transfer() {
    let set = fresh_set();
    let tx = Transaction::new_utxo("A", "B", 40, &set).unwrap();
    assert_eq!(tx.id, "2e701e45b51a02cb9530db9f7878093b37e3a4572881b1b17bf2fd1461800f5c");
    assert!(!tx.is_coinbase());
}

#[test]
fn reindex_agrees_with_update_after_every_append() {
    let bc = Blockchain::create_blockchain_at(String::from("A"), STAMP).unwrap();
    let genesis = bc.get_blocks()[0].clone();
    let mut step = UTXOSet::new(bc);
    step.update(&genesis);
    for round in 0..4u128 {
        let amount = 30 + 25 * round as i32;
        let (from, to) = if round % 2 == 0 { ("A", "B") } else { ("B", "A") };
        let mut txs = vec![coinbase(to, &format!("round {}", round))];
        if let Ok(tx) = Transaction::new_utxo(from, to, amount, &step) {
            txs.push(tx);
        }
        let block = step.blockchain.add_block_at(txs, STAMP + 1 + round).unwrap();
        step.update(&block);
        let mut full = UTXOSet::new(step.blockchain.clone());
        full.reindex();
        assert_eq!(keys(&full.utxos), keys(&step.utxos));
        assert_eq!(keys(&step.blockchain.find_UTXO()), keys(&step.utxos));
        assert_eq!(full.count_transactions(), step.count_transactions());
    }
    assert!(step.utxos.len() > 3);
}

#[test]
fn an_output_spent_in_its_own_block_is_never_indexed() {
    let mut set = fresh_set();
    let made = Transaction {
        id: String::from("made"),
        vin: vec![TXInput { txid: String::from(GENESIS_ID), vout: 0, script_sig: String::from("A") }],
        vout: vec![
            TXOutput { value: 70, script_pub_key: String::from("B") },
            TXOutput { value: 30, script_pub_key: String::from("A") },
        ],
    };
    let spent_at_once = Transaction {
        id: String::from("next"),
        vin: vec![TXInput { txid: String::from("made"), vout: 0, script_sig: String::from("B") }],
        vout: vec![TXOutput { value: 70, script_pub_key: String::from("C") }],
    };
    let block = set.blockchain.add_block_at(vec![spent_at_once, made], STAMP + 1).unwrap();
    set.update(&block);
    let expected = vec![
        (String::from("next"), 0usize, 70, String::from("C")),
        (String::from("made"), 1usize, 30, String::from("A")),
    ];
    assert_eq!(keys(&set.utxos), expected);
    assert_eq!(keys(&set.blockchain.find_UTXO()), expected);
    assert_eq!(set.get_balance("B"), 0);
}

#[test]
fn coinbase_inputs_spend_nothing() {
    let mut set = fresh_set();
    let odd = Transaction {
        id: String::from("odd"),
        vin: vec![TXInput { txid: String::new(), vout: -1, script_sig: String::from("x") }],
        vout: vec![TXOutput { value: 5, script_pub_key: String::from("Z") }],
    };
    let block = set.blockchain.add_block_at(vec![odd], STAMP + 1).unwrap();
    set.update(&block);
    assert_eq!(set.utxos.len(), 2);
    assert_eq!(set.get_balance("A"), 100);
    assert_eq!(set.get_balance("Z"), 5);
}

#[test]
fn count_is_the_number_of_distinct_transaction_ids() {
    let mut set = fresh_set();
    let two = Transaction {
        id: String::from("two"),
        vin: vec![],
        vout: vec![
            TXOutput { value: 1, script_pub_key: String::from("P") },
            TXOutput { value: 2, script_pub_key: String::from("Q") },
            TXOutput { value: 3, script_pub_key: String::from("P") },
        ],
    };
    let block = set.blockchain.add_block_at(vec![two, coinbase("A", "again")], STAMP + 1).unwrap();
    set.update(&block);
    assert_eq!(set.utxos.len(), 5);
    assert_eq!(set.count_transactions(), 3);
    assert_eq!(set.get_balance("P"), 4);
    let p = set.find_spendable_outputs("P");
    assert_eq!(p.len(), 2);
    assert_eq!(p[0].vout, 0);
    assert_eq!(p[1].vout, 2);
    let empty = UTXOSet::new(set.blockchain.clone());
    assert_eq!(empty.count_transactions(), 0);
    assert_eq!(empty.get_index().len(), 0);
}

#[test]
fn with_index_keeps_the_given_entries() {
    let set = fresh_set();
    let entries: Vec<UnspentOutput> = set.get_index().clone();
    let again = UTXOSet::with_index(set.blockchain.clone(), entries);
    assert_eq!(keys(&again.utxos), keys(&set.utxos));
    assert_eq!(again.get_balance("A"), 100);
}

#[test]
fn unspent_transactions_are_those_with_a_live_output_of_the_owner() {
    let mut set = fresh_set();
    let tx = Transaction::new_utxo("A", "B", 40, &set).unwrap();
    let spend_id = tx.id.clone();
    let block = set.blockchain.add_block_at(vec![coinbase("A", "reward!"), tx], STAMP + 1).unwrap();
    set.update(&block);
    let a = set.blockchain.find_unspent_transactions("A");
    assert_eq!(a.len(), 2);
    assert_eq!(a[0].id, coinbase("A", "reward!").id);
    assert_eq!(a[1].id, spend_id);
    let b = set.blockchain.find_unspent_transactions("B");
    assert_eq!(b.len(), 1);
    assert_eq!(b[0].id, spend_id);
    assert_eq!(set.blockchain.find_unspent_transactions("C").len(), 0);
}

#[test]
fn index_lists_each_transaction_once_with_its_entries() {
    let mut set = fresh_set();
    let two = Transaction {
        id: String::from("two"),
        vin: vec![],
        vout: vec![
            TXOutput { value: 1, script_pub_key: String::from("P") },
            TXOutput { value: 2, script_pub_key: String::from("Q") },
        ],
    };
    let again = Transaction {
        id: String::from(GENESIS_ID),
        vin: vec![],
        vout: vec![TXOutput { value: 9, script_pub_key: String::from("R") }],
    };
    let block = set.blockchain.add_block_at(vec![two, again], STAMP + 1).unwrap();
    set.update(&block);
    assert_eq!(set.transaction_ids(), vec![String::from(GENESIS_ID), String::from("two")]);
    let first = set.entries_of(GENESIS_ID);
    assert_eq!(
        keys(&first),
        vec![
            (String::from(GENESIS_ID), 0usize, 100, String::from("A")),
            (String::from(GENESIS_ID), 0usize, 9, String::from("R")),
        ]
    );
    assert_eq!(set.entries_of("two").len(), 2);
    assert_eq!(set.entries_of("two")[1].vout, 1);
    assert_eq!(set.entries_of("three").len(), 0);
    assert_eq!(set.count_transactions(), 2);
}

#[test]
fn spending_nothing_takes_no_entry() {
    let set = fresh_set();
    let tx = Transaction::new_utxo("A", "B", 0, &set).unwrap();
    assert_eq!(tx.vin.len(), 0);
    assert_eq!(tx.vout.len(), 1);
    assert_eq!(tx.vout[0].value, 0);
    let back = Transaction::new_utxo("A", "B", -5, &set).unwrap();
    assert_eq!(back.vin.len(), 0);
    assert_eq!(back.vout.len(), 2);
    assert_eq!(back.vout[0].value, -5);
    assert_eq!(back.vout[1].value, 5);
    assert_eq!(back.vout[1].script_pub_key, "A");
}

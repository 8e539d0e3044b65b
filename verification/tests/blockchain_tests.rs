use blockchain_ledger::block::Block;
use blockchain_ledger::blockchain::Blockchain;
use blockchain_ledger::error::ChainError;
use blockchain_ledger::transaction::{TXInput, TXOutput, Transaction};

const STAMP: u128 = 1_700_000_000_000;

fn coinbase(to: &str, memo: &str) -> Transaction {
    Transaction::new_coinbase(String::from(to), String::from(memo)).unwrap()
}

fn chain_of_three() -> Blockchain {
    let mut bc = Blockchain::create_blockchain_at(String::from("A"), STAMP).unwrap();
    bc.add_block_at(vec![coinbase("B", "one")], STAMP + 1).unwrap();
    bc.add_block_at(vec![coinbase("C", "two"), coinbase("D", "three")], STAMP + 2).unwrap();
    bc
}

fn from_tip(bc: &Blockchain) -> Vec<Block> {
    let mut blocks: Vec<Block> = bc.get_blocks().clone();
    blocks.reverse();
    blocks
}

#[test]
fn test_blockchain() {
    let made = chain_of_three();
    let b = Blockchain::new(Some(made.get_current_hash()), from_tip(&made)).unwrap();
    println!("blockchain: {:#?}", b);
}

#[test]
fn test_add_block() {
    let made = chain_of_three();
    let b = Blockchain::new(Some(made.get_current_hash()), from_tip(&made)).unwrap();
    let mut walk = b.iter();
    while let Some(item) = walk.next() {
        println!("item: {:#?}", item)
    }
}

#[test]
fn created_ledger_holds_the_genesis_block() {
    let bc = Blockchain::create_blockchain_at(String::from("A"), STAMP).unwrap();
    let blocks = bc.get_blocks();
    assert_eq!(blocks.len(), 1);
    let genesis = &blocks[0];
    assert_eq!(genesis.get_height(), 0);
    assert_eq!(genesis.get_prev_hash(), "");
    assert_eq!(genesis.get_timestamp(), STAMP);
    assert_eq!(genesis.get_hash(), bc.get_current_hash());
    assert_eq!(genesis.is_sealed(), Ok(true));
    let txs = genesis.get_transaction();
    assert_eq!(txs.len(), 1);
    assert!(txs[0].is_coinbase());
    assert_eq!(txs[0].vin[0].script_sig, "GENESIS_COINBASE_DATA");
    assert_eq!(txs[0].vout[0].value, 100);
    assert_eq!(txs[0].vout[0].script_pub_key, "A");
    assert_eq!(txs[0].id, "81c3a48229f8e517029809709f208e686f85caf5d2eff4a8dac33df7b8643ef2");
}

#[test]
fn ledger_created_with_the_clock_is_sealed() {
    let mut bc = Blockchain::create_blockchain(String::from("A")).unwrap();
    assert_eq!(bc.get_blocks().len(), 1);
    assert_eq!(bc.get_blocks()[0].is_sealed(), Ok(true));
    let block = bc.add_block(vec![coinbase("B", "one")]).unwrap();
    assert_eq!(block.get_height(), 1);
    assert_eq!(bc.get_blocks().len(), 2);
    assert_eq!(bc.get_current_hash(), block.get_hash());
}

#[test]
fn appended_block_follows_the_tip() {
    let mut bc = Blockchain::create_blockchain_at(String::from("A"), STAMP).unwrap();
    let genesis_hash = bc.get_current_hash();
    let block = bc.add_block_at(vec![coinbase("B", "one")], STAMP + 1).unwrap();
    assert_eq!(block.get_prev_hash(), genesis_hash);
    assert_eq!(block.get_height(), 1);
    assert_eq!(block.get_timestamp(), STAMP + 1);
    assert_eq!(block.is_sealed(), Ok(true));
    assert_eq!(bc.get_current_hash(), block.get_hash());
    assert_eq!(bc.get_blocks().len(), 2);
    assert_eq!(bc.get_blocks()[1].get_hash(), block.get_hash());
    assert_eq!(bc.get_blocks()[0].get_hash(), genesis_hash);
}

#[test]
fn walk_visits_height_plus_one_blocks_and_ends_at_genesis() {
    let bc = chain_of_three();
    let tip_height = bc.get_blocks()[2].get_height();
    let mut walk = bc.iter();
    let mut visited: Vec<Block> = Vec::new();
    while let Some(block) = walk.next() {
        visited.push(block);
    }
    assert!(walk.next().is_none());
    assert_eq!(visited.len() as i32, tip_height + 1);
    assert_eq!(visited[0].get_hash(), bc.get_current_hash());
    assert_eq!(visited[0].get_height(), 2);
    assert_eq!(visited[1].get_height(), 1);
    assert_eq!(visited[2].get_height(), 0);
    assert_eq!(visited[0].get_prev_hash(), visited[1].get_hash());
    assert_eq!(visited[1].get_prev_hash(), visited[2].get_hash());
    assert_eq!(visited[2].get_prev_hash(), "");
}

#[test]
fn find_transaction_returns_the_one_with_the_id() {
    let bc = chain_of_three();
    let wanted = coinbase("D", "three");
    let found = bc.find_transaction(&wanted.id).unwrap();
    assert_eq!(found.id, wanted.id);
    assert_eq!(found.vout[0].script_pub_key, "D");
    let genesis = bc.find_transaction(
        "81c3a48229f8e517029809709f208e686f85caf5d2eff4a8dac33df7b8643ef2",
    )
    .unwrap();
    assert_eq!(genesis.vout[0].script_pub_key, "A");
}

#[test]
fn find_transaction_fails_for_an_unknown_id() {
    let bc = chain_of_three();
    assert_eq!(bc.find_transaction("nothing").err(), Some(ChainError::TransactionNotFound));
    assert_eq!(bc.find_transaction("").err(), Some(ChainError::TransactionNotFound));
}

#[test]
fn find_transaction_prefers_the_block_nearest_the_tip() {
    let mut bc = Blockchain::create_blockchain_at(String::from("A"), STAMP).unwrap();
    let low = Transaction {
        id: String::from("same"),
        vin: vec![],
        vout: vec![TXOutput { value: 1, script_pub_key: String::from("low") }],
    };
    let high_first = Transaction {
        id: String::from("same"),
        vin: vec![],
        vout: vec![TXOutput { value: 2, script_pub_key: String::from("high first") }],
    };
    let high_second = Transaction {
        id: String::from("same"),
        vin: vec![],
        vout: vec![TXOutput { value: 3, script_pub_key: String::from("high second") }],
    };
    bc.add_block_at(vec![low], STAMP + 1).unwrap();
    bc.add_block_at(vec![coinbase("B", "x"), high_first, high_second], STAMP + 2).unwrap();
    let found = bc.find_transaction("same").unwrap();
    assert_eq!(found.vout[0].script_pub_key, "high first");
}

#[test]
fn previous_transactions_come_in_the_inputs_order() {
    let bc = chain_of_three();
    let c = coinbase("C", "two");
    let b = coinbase("B", "one");
    let tx = Transaction {
        id: String::new(),
        vin: vec![
            TXInput { txid: c.id.clone(), vout: 0, script_sig: String::new() },
            TXInput { txid: b.id.clone(), vout: 0, script_sig: String::new() },
            TXInput { txid: c.id.clone(), vout: 0, script_sig: String::new() },
        ],
        vout: vec![],
    };
    let prev = bc.get_prev_TXs(&tx).unwrap();
    assert_eq!(prev.len(), 3);
    assert_eq!(prev[0].id, c.id);
    assert_eq!(prev[1].id, b.id);
    assert_eq!(prev[2].id, c.id);
    let lost = Transaction {
        id: String::new(),
        vin: vec![TXInput { txid: String::from("gone"), vout: 0, script_sig: String::new() }],
        vout: vec![],
    };
    assert_eq!(bc.get_prev_TXs(&lost).err(), Some(ChainError::TransactionNotFound));
    let none = Transaction { id: String::new(), vin: vec![], vout: vec![] };
    assert_eq!(bc.get_prev_TXs(&none).unwrap().len(), 0);
}

#[test]
fn opening_needs_a_tip() {
    let made = chain_of_three();
    assert_eq!(
        Blockchain::new(None, from_tip(&made)).err(),
        Some(ChainError::UninitializedLedger)
    );
    assert_eq!(Blockchain::new(None, vec![]).err(), Some(ChainError::UninitializedLedger));
}

#[test]
fn opening_gives_back_the_same_ledger() {
    let made = chain_of_three();
    let opened = Blockchain::new(Some(made.get_current_hash()), from_tip(&made)).unwrap();
    assert_eq!(opened.get_current_hash(), made.get_current_hash());
    assert_eq!(opened.get_blocks().len(), 3);
    for i in 0..3 {
        assert_eq!(opened.get_blocks()[i].get_hash(), made.get_blocks()[i].get_hash());
        assert_eq!(opened.get_blocks()[i].get_height(), i as i32);
    }
    let copy = made.clone();
    assert_eq!(copy.get_current_hash(), made.get_current_hash());
    assert_eq!(copy.get_blocks().len(), 3);
}

#[test]
fn opening_refuses_blocks_that_do_not_form_a_chain() {
    let made = chain_of_three();
    let tip = made.get_current_hash();
    assert_eq!(Blockchain::new(Some(tip.clone()), vec![]).err(), Some(ChainError::BrokenChain));
    let genesis_first: Vec<Block> = made.get_blocks().clone();
    assert_eq!(
        Blockchain::new(Some(tip.clone()), genesis_first).err(),
        Some(ChainError::BrokenChain)
    );
    let mut gap = from_tip(&made);
    gap.remove(1);
    assert_eq!(Blockchain::new(Some(tip.clone()), gap).err(), Some(ChainError::BrokenChain));
    let mut headless = from_tip(&made);
    headless.pop();
    assert_eq!(Blockchain::new(Some(tip.clone()), headless).err(), Some(ChainError::BrokenChain));
    assert_eq!(
        Blockchain::new(Some(String::from("other")), from_tip(&made)).err(),
        Some(ChainError::BrokenChain)
    );
}

#[test]
fn opening_refuses_a_block_without_proof_of_work() {
    let made = chain_of_three();
    let mut blocks = from_tip(&made);
    let genesis = blocks.pop().unwrap();
    let forged = Block::from_parts(
        genesis.get_timestamp() + 1,
        genesis.get_transaction().clone(),
        genesis.get_prev_hash(),
        genesis.get_hash(),
        genesis.get_height(),
        genesis.get_nonce(),
    );
    blocks.push(forged);
    assert_eq!(
        Blockchain::new(Some(made.get_current_hash()), blocks).err(),
        Some(ChainError::InvalidProofOfWork)
    );
}

#[test]
fn next_key_follows_the_previous_hashes() {
    let made = chain_of_three();
    let tip = Some(made.get_current_hash());
    let all = from_tip(&made);
    assert_eq!(Blockchain::next_key(&None, &vec![]), None);
    assert_eq!(Blockchain::next_key(&Some(String::new()), &vec![]), None);
    assert_eq!(Blockchain::next_key(&tip, &vec![]), tip);
    let one = vec![all[0].clone()];
    assert_eq!(Blockchain::next_key(&tip, &one), Some(all[1].get_hash()));
    let two = vec![all[0].clone(), all[1].clone()];
    assert_eq!(Blockchain::next_key(&tip, &two), Some(all[2].get_hash()));
    assert_eq!(Blockchain::next_key(&tip, &all), None);
    let circle = vec![all[1].clone(), all[0].clone()];
    assert_eq!(Blockchain::next_key(&tip, &circle), None);
}

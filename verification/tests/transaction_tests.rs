use blockchain_ledger::transaction::{TXInput, TXOutput, Transaction};

fn input(txid: &str, vout: i32, script_sig: &str) -> TXInput {
    TXInput { txid: String::from(txid), vout, script_sig: String::from(script_sig) }
}

fn output(value: i32, script_pub_key: &str) -> TXOutput {
    TXOutput { value, script_pub_key: String::from(script_pub_key) }
}

#[test]
fn coinbase_has_one_sentinel_input_and_the_reward() {
    let tx = Transaction::new_coinbase(String::from("alice"), String::from("memo")).unwrap();
    assert_eq!(tx.vin.len(), 1);
    assert_eq!(tx.vin[0].txid, "");
    assert_eq!(tx.vin[0].vout, -1);
    assert_eq!(tx.vin[0].script_sig, "memo");
    assert_eq!(tx.vout.len(), 1);
    assert_eq!(tx.vout[0].value, 100);
    assert_eq!(tx.vout[0].script_pub_key, "alice");
    assert!(tx.is_coinbase());
}

#[test]
fn coinbase_without_memo_names_the_receiver() {
    let tx = Transaction::new_coinbase(String::from("alice"), String::new()).unwrap();
    assert_eq!(tx.vin[0].script_sig, "Reward to 'alice' ");
    assert_eq!(tx.id, "4c8b6efc77105937af4b19ae50df61e48bdf9e542b10e66bb7a77ba117da1589");
}

#[test]
fn coinbase_id_is_the_digest_of_its_encoding() {
    let tx = Transaction::new_coinbase(String::from("alice"), String::from("memo")).unwrap();
    assert_eq!(tx.id, "aa11706fbeb8434cb1e00c269ceda630c616996b9385aadb68e99cda3bee1ccf");
    assert_eq!(tx.hash().unwrap(), tx.id);
}

#[test]
fn hash_leaves_the_stored_id_out() {
    let mut tx = Transaction {
        id: String::from("anything"),
        vin: vec![input("", -1, "memo")],
        vout: vec![output(100, "alice")],
    };
    assert_eq!(
        tx.hash().unwrap(),
        "aa11706fbeb8434cb1e00c269ceda630c616996b9385aadb68e99cda3bee1ccf"
    );
    assert_eq!(tx.set_id(), Ok(()));
    assert_eq!(tx.id, "aa11706fbeb8434cb1e00c269ceda630c616996b9385aadb68e99cda3bee1ccf");
    assert_eq!(tx.vin.len(), 1);
    assert_eq!(tx.vout[0].value, 100);
}

#[test]
fn hash_depends_on_inputs_and_outputs() {
    let tx = Transaction {
        id: String::new(),
        vin: vec![input(
            "81c3a48229f8e517029809709f208e686f85caf5d2eff4a8dac33df7b8643ef2",
            0,
            "A",
        )],
        vout: vec![output(40, "B"), output(60, "A")],
    };
    assert_eq!(
        tx.hash().unwrap(),
        "2e701e45b51a02cb9530db9f7878093b37e3a4572881b1b17bf2fd1461800f5c"
    );
}

#[test]
fn is_coinbase_needs_exactly_the_sentinel_input() {
    let mk = |vin: Vec<TXInput>| Transaction { id: String::new(), vin, vout: vec![] };
    assert!(mk(vec![input("", -1, "x")]).is_coinbase());
    assert!(!mk(vec![]).is_coinbase());
    assert!(!mk(vec![input("", 0, "x")]).is_coinbase());
    assert!(!mk(vec![input("ab", -1, "x")]).is_coinbase());
    assert!(!mk(vec![input("", -1, "x"), input("", -1, "x")]).is_coinbase());
}

#[test]
fn unlocking_is_text_equality() {
    let i = input("ab", 0, "alice");
    assert!(i.can_unlock_output_with("alice"));
    assert!(!i.can_unlock_output_with("alic"));
    assert!(!i.can_unlock_output_with(""));
    let o = output(5, "bob");
    assert!(o.can_be_unlock_with("bob"));
    assert!(!o.can_be_unlock_with("Bob"));
}

#[test]
fn clone_keeps_every_field() {
    let tx = Transaction::new_coinbase(String::from("alice"), String::from("memo")).unwrap();
    let copy = tx.clone();
    assert_eq!(copy.id, tx.id);
    assert_eq!(copy.vin[0].script_sig, "memo");
    assert_eq!(copy.vout[0].value, 100);
    assert_eq!(copy.vout[0].script_pub_key, "alice");
}

type Fields = (String, Vec<(String, i32, String)>, Vec<(i32, String)>);

fn fields_of(tx: &Transaction) -> Fields {
    (
        tx.id.clone(),
        tx.vin.iter().map(|i| (i.txid.clone(), i.vout, i.script_sig.clone())).collect(),
        tx.vout.iter().map(|o| (o.value, o.script_pub_key.clone())).collect(),
    )
}

fn rebuilt(fields: Fields) -> Transaction {
    Transaction {
        id: fields.0,
        vin: fields.1.into_iter().map(|(t, v, s)| input(&t, v, &s)).collect(),
        vout: fields.2.into_iter().map(|(v, s)| output(v, &s)).collect(),
    }
}

#[test]
fn transaction_survives_its_encoding() {
    let tx = Transaction {
        id: String::from("2e701e45b51a02cb9530db9f7878093b37e3a4572881b1b17bf2fd1461800f5c"),
        vin: vec![input(
            "81c3a48229f8e517029809709f208e686f85caf5d2eff4a8dac33df7b8643ef2",
            0,
            "A",
        )],
        vout: vec![output(40, "B"), output(60, "A")],
    };
    let bytes = bincode::serialize(&fields_of(&tx)).unwrap();
    let back = rebuilt(bincode::deserialize::<Fields>(&bytes).unwrap());
    assert_eq!(fields_of(&back), fields_of(&tx));
    assert_eq!(back.hash().unwrap(), tx.id);
    assert_eq!(back.hash().unwrap(), tx.hash().unwrap());
}

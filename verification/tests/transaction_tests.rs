use chain_tx::account::Account;
use chain_tx::address::Address;
use chain_tx::address::AddressDiscrimination;
use chain_tx::builder::OutputPolicy;
use chain_tx::builder::TransactionBuilder;
use chain_tx::error::CoreError;
use chain_tx::fee::Fee;
use chain_tx::fragment::Fragment;
use chain_tx::keys::PrivateKey;
use chain_tx::keys::PublicKey;
use chain_tx::primitives::FragmentId;
use chain_tx::primitives::SpendingCounter;
use chain_tx::transaction::Input;
use chain_tx::transaction::InputKind;
use chain_tx::transaction::Transaction;
use chain_tx::transaction::UtxoPointer;
use chain_tx::transaction::Witness;
use chain_tx::transaction::Witnesses;
use chain_tx::value::Value;

fn key(byte: u8) -> PublicKey {
    PublicKey::from_bytes(&[byte; 32]).unwrap()
}

fn utxo_input(byte: u8, index: u8, amount: u64) -> Input {
    let fid = FragmentId::from_bytes(&[byte; 32]).unwrap();
    Input::from_utxo(&UtxoPointer::new(&fid, index, &Value::new(amount)))
}

fn addr(byte: u8) -> Address {
    Address::single_from_public_key(&key(byte), AddressDiscrimination::Test)
}

#[test]
fn input_accessors_and_bytes() {
    let input = utxo_input(0x77, 3, 500);
    assert!(input.is_utxo());
    assert!(!input.is_account());
    assert!(matches!(input.get_type(), InputKind::Utxo));
    assert_eq!(input.value().as_u64(), 500);
    let p = input.get_utxo_pointer().unwrap();
    assert_eq!(p.output_index(), 3);
    assert_eq!(p.fragment_id().as_bytes(), vec![0x77; 32]);
    assert!(matches!(input.get_account_identifier(), Err(CoreError::WrongVariant)));

    let bytes = input.as_bytes();
    assert_eq!(bytes.len(), 41);
    assert_eq!(bytes[0], 3);
    let back = Input::from_bytes(&bytes).unwrap();
    assert_eq!(back.as_bytes(), bytes);
}

#[test]
fn account_input_round_trip() {
    let account = Account::single_from_public_key(&key(0x42));
    let input = Input::from_account(&account, &Value::new(77));
    assert!(input.is_account());
    assert_eq!(input.get_account_identifier().unwrap().to_hex(), hex::encode([0x42; 32]));
    let bytes = input.as_bytes();
    assert_eq!(bytes[0], 0xff);
    let back = Input::from_bytes(&bytes).unwrap();
    assert!(back.is_account());
    assert_eq!(back.value().as_u64(), 77);
    assert!(Input::from_bytes(&bytes[..40]).is_err());
}

#[test]
fn account_address_round_trip() {
    let account = Account::single_from_public_key(&key(0x31));
    let address = account.to_address(AddressDiscrimination::Test);
    let back = Account::from_address(&address).unwrap();
    assert_eq!(back.to_identifier().to_hex(), account.to_identifier().to_hex());
    // a single (spending) address names no account
    let single = addr(0x31);
    assert!(matches!(Account::from_address(&single), Err(CoreError::WrongVariant)));
}

#[test]
fn fee_scenario() {
    // constant 200000, coefficient 50000, certificate 100000 over
    // 2 inputs + 1 output and no certificate: 200000 + 50000 * 3
    let fee = Fee::linear_fee(&Value::new(200000), &Value::new(50000), &Value::new(100000));
    let tx = Transaction {
        extra: None,
        inputs: vec![utxo_input(1, 0, 600000), utxo_input(2, 1, 100000)],
        outputs: vec![chain_tx::transaction::Output { address: addr(9), value: Value::new(350000) }],
        witnesses: vec![],
    };
    assert_eq!(fee.calculate(&tx).as_u64(), 350000);
}

#[test]
fn builder_forget_policy() {
    let fee = Fee::linear_fee(&Value::new(200000), &Value::new(50000), &Value::new(100000));
    let mut builder = TransactionBuilder::new_no_payload();
    builder.add_input(&utxo_input(1, 0, 600000));
    builder.add_input(&utxo_input(2, 1, 100000));
    builder.add_output(&addr(9), &Value::new(350000));
    let balance = builder.get_balance(&fee).unwrap();
    assert!(balance.is_zero());
    assert_eq!(balance.get_sign(), "zero");
    let tx = builder.finalize(&fee, &OutputPolicy::forget()).unwrap();
    assert_eq!(tx.nb_inputs(), 2);
    assert_eq!(tx.nb_outputs(), 1);
}

#[test]
fn builder_change_output() {
    // fee with the change output counted: 10 + 2 * (1 + 2) = 16;
    // in 100, out 50: the change is 100 - 50 - 16 = 34
    let fee = Fee::linear_fee(&Value::new(10), &Value::new(2), &Value::new(5));
    let mut builder = TransactionBuilder::new_no_payload();
    builder.add_input(&utxo_input(1, 0, 100));
    builder.add_output(&addr(7), &Value::new(50));
    let change_to = addr(8);
    let tx = builder.finalize(&fee, &OutputPolicy::one(&change_to)).unwrap();
    assert_eq!(tx.nb_outputs(), 2);
    let outputs = tx.outputs();
    let change = outputs.get(1);
    assert_eq!(change.value().as_u64(), 34);
    assert_eq!(change.address().as_bytes(), change_to.as_bytes());
}

#[test]
fn builder_rejects_underfunded() {
    let fee = Fee::linear_fee(&Value::new(10), &Value::new(2), &Value::new(5));
    let mut builder = TransactionBuilder::new_no_payload();
    builder.add_input(&utxo_input(1, 0, 50));
    builder.add_output(&addr(7), &Value::new(50));
    assert!(matches!(
        builder.finalize(&fee, &OutputPolicy::forget()),
        Err(CoreError::ArithmeticError)
    ));
    let balance = builder.get_balance(&fee).unwrap();
    assert!(balance.is_negative());
    assert_eq!(balance.get_value().as_u64(), 14);
    let without = builder.get_balance_without_fee().unwrap();
    assert!(without.is_zero());
}

#[test]
fn witnesses_and_sealed_transaction_round_trip() {
    let genesis = chain_tx::primitives::Hash::calculate(b"genesis");
    let fee = Fee::linear_fee(&Value::new(1), &Value::new(1), &Value::new(1));
    let mut builder = TransactionBuilder::new_no_payload();
    builder.add_input(&utxo_input(1, 0, 1000));
    builder.add_output(&addr(7), &Value::new(900));
    let tx = builder.finalize(&fee, &OutputPolicy::forget()).unwrap();
    let txid = tx.id();

    let utxo_key = PrivateKey::generate_ed25519().unwrap();
    let w = Witness::for_utxo(&genesis, &txid, &utxo_key);
    let mut witnesses = Witnesses::new();
    witnesses.add(&w);
    let sealed = tx.seal_with_witnesses(&witnesses).unwrap();
    // sealing leaves the signed payload, and so the id, unchanged
    assert_eq!(sealed.id().as_bytes(), txid.as_bytes());

    let bytes = sealed.as_bytes();
    let back = Transaction::from_bytes(&bytes).unwrap();
    assert_eq!(back.as_bytes(), bytes);
    assert_eq!(back.nb_inputs(), 1);

    // a mismatched witness count is refused
    let empty = Witnesses::new();
    assert!(tx.seal_with_witnesses(&empty).is_err());
}

#[test]
fn account_witness_binds_counter() {
    let genesis = chain_tx::primitives::Hash::calculate(b"genesis");
    let txid = chain_tx::primitives::TransactionSignDataHash::from_bytes(&[5u8; 32]).unwrap();
    let k = PrivateKey::generate_ed25519().unwrap();
    let w0 = Witness::for_account(&genesis, &txid, &k, &SpendingCounter::zero());
    let w1 = Witness::for_account(&genesis, &txid, &k, &SpendingCounter::from_u32(1));
    // a different counter signs a different message
    match (&w0, &w1) {
        (Witness::Account(a), Witness::Account(b)) => assert_ne!(a.as_bytes(), b.as_bytes()),
        _ => panic!("account witnesses expected"),
    }
}

#[test]
fn witness_bech32_rendering() {
    let genesis = chain_tx::primitives::Hash::calculate(b"genesis");
    let txid = chain_tx::primitives::TransactionSignDataHash::from_bytes(&[5u8; 32]).unwrap();
    let k = PrivateKey::generate_ed25519().unwrap();
    let w = Witness::for_utxo(&genesis, &txid, &k);
    let s = w.to_bech32().unwrap();
    assert!(s.starts_with("witness1"));
}

#[test]
fn fragment_round_trip_and_id() {
    let fee = Fee::linear_fee(&Value::new(1), &Value::new(1), &Value::new(1));
    let mut builder = TransactionBuilder::new_no_payload();
    builder.add_input(&utxo_input(3, 0, 10));
    let tx = builder.finalize(&fee, &OutputPolicy::forget()).unwrap();
    let fragment = Fragment::from_transaction(&tx);
    assert!(fragment.is_transaction());
    assert!(!fragment.is_initial());
    assert!(!fragment.is_pool_registration());
    let bytes = fragment.as_bytes().unwrap();
    let back = Fragment::from_bytes(&bytes).unwrap();
    assert_eq!(back.as_bytes().unwrap(), bytes);
    assert_eq!(back.id().as_bytes(), fragment.id().as_bytes());
    let inner = back.get_transaction().unwrap();
    assert_eq!(inner.nb_inputs(), 1);
    assert!(matches!(back.get_old_utxo_declaration(), Err(CoreError::WrongVariant)));
}

#[test]
fn certificate_fragment_kind_flags() {
    let cert = chain_tx::certificate::Certificate::stake_pool_retirement(
        &chain_tx::certificate::PoolRetirement::new(
            &chain_tx::primitives::PoolId::from_hex(&hex::encode([1u8; 32])).unwrap(),
            &chain_tx::primitives::TimeOffsetSeconds::from_string("4").unwrap(),
        ),
    );
    let fee = Fee::linear_fee(&Value::new(1), &Value::new(1), &Value::new(1));
    let mut builder = TransactionBuilder::new_payload(&cert);
    builder.add_input(&utxo_input(3, 0, 100));
    let tx = builder.finalize(&fee, &OutputPolicy::forget()).unwrap();
    let fragment = Fragment::from_transaction(&tx);
    assert!(fragment.is_pool_retirement());
    assert!(!fragment.is_transaction());
    assert!(!fragment.is_pool_update());
    let bytes = fragment.as_bytes().unwrap();
    let back = Fragment::from_bytes(&bytes).unwrap();
    assert!(back.is_pool_retirement());
}

use chain_tx::address::Address;
use chain_tx::address::AddressDiscrimination;
use chain_tx::address::AddressKind;
use chain_tx::error::CoreError;
use chain_tx::keys::PublicKey;

fn key(byte: u8) -> PublicKey {
    PublicKey::from_bytes(&[byte; 32]).unwrap()
}

#[test]
fn single_address_kind_scenario() {
    let pk = key(0x11);
    let addr = Address::single_from_public_key(&pk, AddressDiscrimination::Test);
    assert!(matches!(addr.get_kind(), AddressKind::Single));
    assert!(matches!(addr.get_discrimination(), AddressDiscrimination::Test));
    let single = addr.to_single_address().unwrap();
    assert_eq!(single.get_spending_key().as_bytes(), pk.as_bytes());
    assert!(addr.to_account_address().is_none());
    assert!(addr.to_group_address().is_none());
    assert!(addr.to_multisig_address().is_none());
    let base = single.to_base_address();
    assert_eq!(base.as_bytes(), addr.as_bytes());
}

#[test]
fn address_byte_layout() {
    let pk = key(0x22);
    let prod = Address::single_from_public_key(&pk, AddressDiscrimination::Production);
    let bytes = prod.as_bytes();
    assert_eq!(bytes.len(), 33);
    assert_eq!(bytes[0], 0x03);
    let test = Address::single_from_public_key(&pk, AddressDiscrimination::Test);
    assert_eq!(test.as_bytes()[0], 0x83);
    let group = Address::delegation_from_public_key(&key(1), &key(2), AddressDiscrimination::Production);
    let gb = group.as_bytes();
    assert_eq!(gb.len(), 65);
    assert_eq!(gb[0], 0x04);
    let account = Address::account_from_public_key(&key(3), AddressDiscrimination::Test);
    assert_eq!(account.as_bytes()[0], 0x85);
    let multisig = Address::multisig_from_merkle_root(&[9u8; 32], AddressDiscrimination::Production).unwrap();
    assert_eq!(multisig.as_bytes()[0], 0x06);
}

#[test]
fn address_bytes_round_trip() {
    let group = Address::delegation_from_public_key(&key(5), &key(6), AddressDiscrimination::Test);
    let bytes = group.as_bytes();
    let back = Address::from_bytes(&bytes).unwrap();
    assert_eq!(back.as_bytes(), bytes);
    let ga = back.to_group_address().unwrap();
    assert_eq!(ga.get_spending_key().as_bytes(), vec![5u8; 32]);
    assert_eq!(ga.get_account_key().as_bytes(), vec![6u8; 32]);
}

#[test]
fn address_decode_rejects_malformed() {
    assert!(matches!(Address::from_bytes(&[]), Err(CoreError::MalformedAddress)));
    // unknown tag
    assert!(matches!(Address::from_bytes(&[0x07; 33]), Err(CoreError::MalformedAddress)));
    // truncated payload
    let pk = key(0x22);
    let mut bytes = Address::single_from_public_key(&pk, AddressDiscrimination::Test).as_bytes();
    bytes.pop();
    assert!(matches!(Address::from_bytes(&bytes), Err(CoreError::MalformedAddress)));
}

#[test]
fn address_bech32_round_trip() {
    let addr = Address::account_from_public_key(&key(0x33), AddressDiscrimination::Test);
    let s = addr.to_string("ta");
    assert!(s.starts_with("ta1"));
    let back = Address::from_string(&s).unwrap();
    assert_eq!(back.as_bytes(), addr.as_bytes());
    // any-prefix mode: another prefix decodes too
    let s2 = addr.to_string("ca");
    assert!(s2.starts_with("ca1"));
    let back2 = Address::from_string(&s2).unwrap();
    assert_eq!(back2.as_bytes(), addr.as_bytes());
}

#[test]
fn address_from_string_rejects_corruption() {
    let addr = Address::account_from_public_key(&key(0x44), AddressDiscrimination::Production);
    let s = addr.to_string("addr");
    let mut corrupted = s.clone();
    // flip the last character to break the checksum
    let last = corrupted.pop().unwrap();
    corrupted.push(if last == 'q' { 'p' } else { 'q' });
    assert!(matches!(
        Address::from_string(&corrupted),
        Err(CoreError::InvalidChecksum)
    ));
    // a string that is not bech32 at all is rejected the same way
    assert!(matches!(
        Address::from_string("not a bech32 string"),
        Err(CoreError::InvalidChecksum)
    ));
}

#[test]
fn multisig_root_size_is_checked() {
    assert!(matches!(
        Address::multisig_from_merkle_root(&[0u8; 31], AddressDiscrimination::Test),
        Err(CoreError::MalformedInput)
    ));
    let addr = Address::multisig_from_merkle_root(&[8u8; 32], AddressDiscrimination::Test).unwrap();
    let ms = addr.to_multisig_address().unwrap();
    assert_eq!(ms.get_merkle_root(), vec![8u8; 32]);
    assert_eq!(ms.to_base_address().unwrap().as_bytes(), addr.as_bytes());
}

#[test]
fn prefix_validity() {
    assert!(chain_tx::codec::is_valid_prefix("ta"));
    assert!(chain_tx::codec::is_valid_prefix("addr"));
    assert!(!chain_tx::codec::is_valid_prefix(""));
    assert!(!chain_tx::codec::is_valid_prefix("TA"));
    assert!(!chain_tx::codec::is_valid_prefix("has space"));
}

#[test]
fn blake2b_digest_matches_reference() {
    // the Blake2b-256 digest of the empty string
    let digest = chain_tx::primitives::Hash::calculate(b"");
    assert_eq!(
        hex::encode(digest.as_bytes()),
        "0e5751c026e543b2e8ab2eb06099daa1d1e5df47778f7787faab45cdf12fe3a8"
    );
}

#[test]
fn hash_hex_round_trip() {
    let digest = chain_tx::primitives::Hash::calculate(b"content");
    let s = hex::encode(digest.as_bytes());
    let back = chain_tx::primitives::Hash::from_hex(&s).unwrap();
    assert_eq!(back.as_bytes(), digest.as_bytes());
    assert!(chain_tx::primitives::Hash::from_hex("zz").is_err());
    assert!(chain_tx::primitives::Hash::from_hex("abcd").is_err());
}

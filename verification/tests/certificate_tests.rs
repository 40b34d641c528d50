use chain_tx::account::DelegationKind;
use chain_tx::account::DelegationRatio;
use chain_tx::account::DelegationType;
use chain_tx::account::PoolDelegationRatio;
use chain_tx::account::PoolDelegationRatios;
use chain_tx::certificate::Certificate;
use chain_tx::certificate::CertificateKind;
use chain_tx::certificate::GenesisPraosLeader;
use chain_tx::certificate::OwnerStakeDelegation;
use chain_tx::certificate::PoolRegistration;
use chain_tx::certificate::PoolRetirement;
use chain_tx::certificate::PoolUpdate;
use chain_tx::certificate::StakeDelegation;
use chain_tx::error::CoreError;
use chain_tx::keys::KesPublicKey;
use chain_tx::keys::PublicKey;
use chain_tx::keys::PublicKeys;
use chain_tx::keys::VrfPublicKey;
use chain_tx::primitives::GenesisPraosLeaderHash;
use chain_tx::primitives::PoolId;
use chain_tx::primitives::TimeOffsetSeconds;
use chain_tx::value::U128;

fn pool(byte: u8) -> PoolId {
    PoolId::from_hex(&hex::encode([byte; 32])).unwrap()
}

fn leader() -> GenesisPraosLeader {
    let kes = KesPublicKey { bytes: vec![0xAA; 32] };
    let vrf = VrfPublicKey { bytes: vec![0xBB; 32] };
    GenesisPraosLeader::new(&kes, &vrf)
}

#[test]
fn delegation_ratio_scenario() {
    // parts 7 over pools (A,2), (B,1), (C,4): accepted
    let mut pools = PoolDelegationRatios::new();
    pools.add(&PoolDelegationRatio::new(&pool(0xA1), 2));
    pools.add(&PoolDelegationRatio::new(&pool(0xB2), 1));
    pools.add(&PoolDelegationRatio::new(&pool(0xC3), 4));
    assert!(DelegationRatio::new(7, &pools).is_some());

    // parts 7 over (A,2), (B,1): the sum 3 does not reach 7
    let mut short = PoolDelegationRatios::new();
    short.add(&PoolDelegationRatio::new(&pool(0xA1), 2));
    short.add(&PoolDelegationRatio::new(&pool(0xB2), 1));
    assert!(DelegationRatio::new(7, &short).is_none());

    // parts 7 over (A,7): only one entry
    let mut single = PoolDelegationRatios::new();
    single.add(&PoolDelegationRatio::new(&pool(0xA1), 7));
    assert!(DelegationRatio::new(7, &single).is_none());
}

#[test]
fn delegation_ratio_repeated_pool_and_largest_size() {
    // the same pool may appear twice; only count and sum are checked
    let mut twice = PoolDelegationRatios::new();
    twice.add(&PoolDelegationRatio::new(&pool(0xA1), 3));
    twice.add(&PoolDelegationRatio::new(&pool(0xA1), 4));
    assert!(DelegationRatio::new(7, &twice).is_some());

    // the largest share list that still counts in one byte
    let mut many = PoolDelegationRatios::new();
    for i in 0..255u16 {
        many.add(&PoolDelegationRatio::new(&pool(i as u8), 1));
    }
    assert!(DelegationRatio::new(255, &many).is_some());
}

#[test]
fn delegation_type_accessors() {
    let none = DelegationType::non_delegated();
    assert!(matches!(none.get_kind(), DelegationKind::NonDelegated));
    assert!(none.get_full().is_none());

    let full = DelegationType::full(&pool(0x77));
    assert!(matches!(full.get_kind(), DelegationKind::Full));
    assert_eq!(full.get_full().unwrap().to_string(), pool(0x77).to_string());

    let mut pools = PoolDelegationRatios::new();
    pools.add(&PoolDelegationRatio::new(&pool(1), 3));
    pools.add(&PoolDelegationRatio::new(&pool(2), 4));
    let ratio = DelegationRatio::new(7, &pools).unwrap();
    let d = DelegationType::ratio(&ratio);
    assert!(matches!(d.get_kind(), DelegationKind::Ratio));
    assert!(d.get_full().is_none());
}

#[test]
fn stake_delegation_round_trip() {
    let account = PublicKey::from_bytes(&[0x51; 32]).unwrap();
    let mut pools = PoolDelegationRatios::new();
    pools.add(&PoolDelegationRatio::new(&pool(1), 2));
    pools.add(&PoolDelegationRatio::new(&pool(2), 5));
    let ratio = DelegationRatio::new(7, &pools).unwrap();
    let cert = StakeDelegation::new(&DelegationType::ratio(&ratio), &account);
    let bytes = cert.as_bytes();
    let back = StakeDelegation::from_bytes(&bytes).unwrap();
    assert_eq!(back.as_bytes(), bytes);
    assert_eq!(back.account().to_hex(), hex::encode([0x51; 32]));
    assert!(matches!(back.delegation_type().get_kind(), DelegationKind::Ratio));
    assert!(matches!(
        StakeDelegation::from_bytes(&bytes[..10]),
        Err(CoreError::MalformedInput)
    ));
}

#[test]
fn owner_stake_delegation_round_trip() {
    let cert = OwnerStakeDelegation::new(&DelegationType::full(&pool(0x99)));
    let bytes = cert.as_bytes();
    assert_eq!(bytes.len(), 33);
    assert_eq!(bytes[0], 1);
    let back = OwnerStakeDelegation::from_bytes(&bytes).unwrap();
    assert_eq!(back.as_bytes(), bytes);
}

#[test]
fn pool_retirement_round_trip() {
    let cert = PoolRetirement::new(&pool(0x10), &TimeOffsetSeconds::from_string("1234567").unwrap());
    let bytes = cert.as_bytes();
    assert_eq!(bytes.len(), 40);
    let back = PoolRetirement::from_bytes(&bytes).unwrap();
    assert_eq!(back.pool_id().to_string(), pool(0x10).to_string());
    assert_eq!(back.retirement_time().to_string(), "1234567");
    assert!(PoolRetirement::from_bytes(&bytes[..39]).is_err());
}

#[test]
fn pool_update_round_trip() {
    let prev = GenesisPraosLeaderHash::from_hex(&hex::encode([0x42; 32])).unwrap();
    let cert = PoolUpdate::new(
        &pool(0x20),
        &TimeOffsetSeconds::from_string("55").unwrap(),
        &prev,
        &leader(),
    );
    let bytes = cert.as_bytes();
    assert_eq!(bytes.len(), 136);
    let back = PoolUpdate::from_bytes(&bytes).unwrap();
    assert_eq!(back.as_bytes(), bytes);
    assert_eq!(back.previous_keys().to_string(), hex::encode([0x42; 32]));
}

#[test]
fn pool_registration_round_trip_and_id() {
    let mut owners = PublicKeys::new();
    owners.add(&PublicKey::from_bytes(&[0x61; 32]).unwrap());
    owners.add(&PublicKey::from_bytes(&[0x62; 32]).unwrap());
    let operators = PublicKeys::new();
    let serial = U128::new(123456789012345678901234567890u128);
    let reg = PoolRegistration::new(
        &serial,
        &owners,
        &operators,
        1,
        &TimeOffsetSeconds::from_string("0").unwrap(),
        &leader(),
    );
    let bytes = reg.as_bytes();
    let back = PoolRegistration::from_bytes(&bytes).unwrap();
    assert_eq!(back.as_bytes(), bytes);
    assert_eq!(back.owners().size(), 2);
    assert_eq!(back.operators().size(), 0);
    assert!(back.reward_account().is_none());
    assert_eq!(back.rewards().ratio_denominator().as_u64(), 1);
    assert!(back.rewards().max_limit().is_none());

    // the id hashes the serial and leader keys alone: it is stable
    assert_eq!(reg.id().to_string(), back.id().to_string());
    // and it really is a digest, not an echo of the input
    assert_ne!(reg.id().as_bytes(), reg.keys().vrf_public_key.bytes);
}

#[test]
fn certificate_wrapper_dispatch() {
    let cert = Certificate::stake_pool_retirement(&PoolRetirement::new(
        &pool(0x30),
        &TimeOffsetSeconds::from_string("9").unwrap(),
    ));
    assert!(matches!(cert.get_type(), CertificateKind::PoolRetirement));
    assert!(cert.get_pool_retirement().is_ok());
    assert!(matches!(cert.get_pool_update(), Err(CoreError::WrongVariant)));
    assert!(matches!(cert.get_stake_delegation(), Err(CoreError::WrongVariant)));
    let inner = cert.get_pool_retirement().unwrap();
    assert_eq!(cert.as_bytes(), inner.as_bytes());
}

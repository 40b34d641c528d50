use chain_tx::keys::Bip32PrivateKey;
use chain_tx::keys::Ed25519Signature;
use chain_tx::keys::PrivateKey;
use chain_tx::keys::PublicKey;
use chain_tx::keys::PublicKeys;

// The first test vector of RFC 8032: seed, public key and the
// signature of the empty message.
const SEED_HEX: &str = "9d61b19deffd5a60ba844af492ec2cc44449c5697b326919703bac031cae7f60";
const PK_HEX: &str = "d75a980182b10ab7d54bfed3c964073a0ee172f3daa62325af021a68f707511a";
const SIG_HEX: &str = "e5564300c360ac729086e2cc806e828a84877f1eb8e5d974d873e065224901555fb8821590a33bacc61e39701cf9b46bd25bf5f0595bbe24655141438e7a100b";

fn reference_keypair() -> PrivateKey {
    let mut kp = hex::decode(SEED_HEX).unwrap();
    kp.extend(hex::decode(PK_HEX).unwrap());
    PrivateKey::from_normal_bytes(&kp).unwrap()
}

#[test]
fn ed25519_reference_signature() {
    let key = reference_keypair();
    let sig = key.sign(b"");
    assert_eq!(sig.to_hex(), SIG_HEX);
    assert_eq!(hex::encode(key.to_public().as_bytes()), PK_HEX);
}

#[test]
fn ed25519_sign_verify_round_trip() {
    let key = PrivateKey::generate_ed25519().unwrap();
    let public = key.to_public();
    let msg = b"a message to authorize";
    let sig = key.sign(msg);
    assert!(public.verify(msg, &sig));
    // any altered byte of the message must fail
    assert!(!public.verify(b"a message to authorizf", &sig));
    // any altered byte of the signature must fail
    let mut bad = sig.as_bytes();
    bad[0] ^= 1;
    let bad_sig = Ed25519Signature::from_bytes(&bad).unwrap();
    assert!(!public.verify(msg, &bad_sig));
}

#[test]
fn extended_sign_verify_round_trip() {
    let key = PrivateKey::generate_ed25519extended().unwrap();
    let public = key.to_public();
    let msg = b"extended scheme message";
    let sig = key.sign(msg);
    assert!(public.verify(msg, &sig));
    assert!(!public.verify(b"extended scheme messagf", &sig));
}

#[test]
fn private_key_bech32_round_trip() {
    let key = reference_keypair();
    let s = key.to_bech32();
    assert!(s.starts_with("ed25519_sk1"));
    let back = PrivateKey::from_bech32(&s).unwrap();
    assert_eq!(back.as_bytes(), key.as_bytes());
    assert!(PrivateKey::from_bech32("ed25519_sk1qqqqqqqq").is_err());
}

#[test]
fn public_key_codec_round_trips() {
    let pk_bytes = hex::decode(PK_HEX).unwrap();
    let pk = PublicKey::from_bytes(&pk_bytes).unwrap();
    let s = pk.to_bech32();
    assert!(s.starts_with("ed25519_pk1"));
    let back = PublicKey::from_bech32(&s).unwrap();
    assert_eq!(back.as_bytes(), pk_bytes);
    assert!(PublicKey::from_bytes(&pk_bytes[1..]).is_err());
}

#[test]
fn bip32_derivation_is_deterministic() {
    let root = Bip32PrivateKey::from_bip39_entropy(b"some-entropy-seed-material", b"pw");
    assert_eq!(root.as_bytes().len(), 96);
    let a = root.derive(0x8000_0000);
    let b = root.derive(0x8000_0000);
    assert_eq!(a.as_bytes(), b.as_bytes());
    // the expansion digests the entropy: it never echoes it back
    assert_ne!(&root.as_bytes()[0..26], b"some-entropy-seed-material");
}

#[test]
fn bip32_soft_derivation_commutes_with_to_public() {
    let root = Bip32PrivateKey::from_bip39_entropy(b"another-test-entropy", b"");
    let index = 42u32;
    let child_public_a = root.derive(index).to_public();
    let child_public_b = root.to_public().derive(index).unwrap();
    assert_eq!(child_public_a.as_bytes(), child_public_b.as_bytes());
}

#[test]
fn bip32_hard_derivation_on_public_fails() {
    let root = Bip32PrivateKey::from_bip39_entropy(b"entropy-for-hard-case", b"");
    let public = root.to_public();
    assert!(matches!(
        public.derive(0x8000_0000),
        Err(chain_tx::error::CoreError::HardDerivationOnPublicKey)
    ));
    assert!(matches!(
        public.derive(u32::MAX),
        Err(chain_tx::error::CoreError::HardDerivationOnPublicKey)
    ));
    assert!(public.derive(0x7fff_ffff).is_ok());
}

#[test]
fn bip32_to_raw_key_signs_consistently() {
    let root = Bip32PrivateKey::from_bip39_entropy(b"raw-key-entropy", b"");
    let raw = root.to_raw_key();
    let msg = b"hello";
    let sig = raw.sign(msg);
    assert!(raw.to_public().verify(msg, &sig));
    assert_eq!(raw.to_public().as_bytes(), root.to_public().to_raw_key().as_bytes());
}

#[test]
fn bip32_bech32_round_trips() {
    let root = Bip32PrivateKey::from_bip39_entropy(b"bech32-roundtrip", b"");
    let s = root.to_bech32();
    assert!(s.starts_with("xprv1"));
    let back = Bip32PrivateKey::from_bech32(&s).unwrap();
    assert_eq!(back.as_bytes(), root.as_bytes());
    let xpub = root.to_public();
    let ps = xpub.to_bech32();
    assert!(ps.starts_with("xpub1"));
    let pback = chain_tx::keys::Bip32PublicKey::from_bech32(&ps).unwrap();
    assert_eq!(pback.as_bytes(), xpub.as_bytes());
}

#[test]
fn signature_hex_round_trip() {
    let key = reference_keypair();
    let sig = key.sign(b"msg");
    let h = sig.to_hex();
    let back = Ed25519Signature::from_hex(&h).unwrap();
    assert_eq!(back.as_bytes(), sig.as_bytes());
    assert!(Ed25519Signature::from_hex("abcd").is_err());
}

#[test]
fn signature_bech32_round_trip() {
    let key = reference_keypair();
    let sig = key.sign(b"msg");
    let s = sig.to_bech32();
    assert!(s.starts_with("ed25519_sig1"));
    let back = Ed25519Signature::from_bech32(&s).unwrap();
    assert_eq!(back.as_bytes(), sig.as_bytes());
    assert!(Ed25519Signature::from_bech32("nonsense").is_err());
}

#[test]
fn public_keys_keep_insertion_order() {
    let mut keys = PublicKeys::new();
    assert_eq!(keys.size(), 0);
    let a = PublicKey::from_bytes(&[1u8; 32]).unwrap();
    let b = PublicKey::from_bytes(&[2u8; 32]).unwrap();
    keys.add(&a);
    keys.add(&b);
    assert_eq!(keys.size(), 2);
    assert_eq!(keys.get(0).as_bytes(), vec![1u8; 32]);
    assert_eq!(keys.get(1).as_bytes(), vec![2u8; 32]);
}

#[test]
fn generated_bip32_key_works() {
    let root = Bip32PrivateKey::generate_ed25519_bip32().unwrap();
    assert_eq!(root.as_bytes().len(), 96);
    let child = root.derive(7);
    assert_eq!(child.to_public().as_bytes().len(), 64);
    let raw = child.to_raw_key();
    let sig = raw.sign(b"payload");
    assert!(raw.to_public().verify(b"payload", &sig));
}

#[test]
fn generated_extended_key_round_trips_bech32() {
    let key = PrivateKey::generate_ed25519extended().unwrap();
    let s = key.to_bech32();
    assert!(s.starts_with("ed25519e_sk1"));
    let back = PrivateKey::from_bech32(&s).unwrap();
    assert_eq!(back.as_bytes(), key.as_bytes());
}

#[test]
fn digest_types_from_hex() {
    let h = hex::encode([0x3Cu8; 32]);
    let txid = chain_tx::primitives::TransactionSignDataHash::from_hex(&h).unwrap();
    assert_eq!(hex::encode(txid.as_bytes()), h);
    let fid = chain_tx::primitives::FragmentId::calculate(b"payload");
    let bid = chain_tx::primitives::BlockId::calculate(b"payload");
    // both identifier kinds digest the same bytes the same way
    assert_eq!(fid.as_bytes(), bid.as_bytes());
    assert_eq!(
        chain_tx::primitives::BlockId::from_bytes(&fid.as_bytes()).unwrap().as_bytes(),
        fid.as_bytes()
    );
}

/// 96 bytes whose scalar carries the extended-key markers: low three
/// bits of byte 0 clear, top bits of byte 31 at the `0x40` pattern.
fn marked_extended_bytes(fill: u8) -> Vec<u8> {
    let mut b = vec![fill & 0xF8; 96];
    b[31] = 0x48;
    b
}

#[test]
fn legacy_daedalus_key_bytes_round_trip() {
    let bytes = marked_extended_bytes(0x70);
    let k = chain_tx::keys::LegacyDaedalusPrivateKey::from_bytes(&bytes).unwrap();
    assert_eq!(k.as_bytes(), bytes);
    assert!(chain_tx::keys::LegacyDaedalusPrivateKey::from_bytes(&bytes[..95]).is_err());
    // a scalar without the extended-key markers is refused
    assert!(chain_tx::keys::LegacyDaedalusPrivateKey::from_bytes(&[7u8; 96]).is_err());
}

#[test]
fn extended_secret_bytes_are_validated() {
    let good = marked_extended_bytes(0x30);
    let k = PrivateKey::from_extended_bytes(&good).unwrap();
    assert_eq!(k.as_bytes(), good);
    // low bits of the first byte set: not a valid extended scalar
    assert!(PrivateKey::from_extended_bytes(&[7u8; 96]).is_err());
    // top bit of the scalar set: out of the curve arithmetic's range
    let mut high = marked_extended_bytes(0x30);
    high[31] = 0xC8;
    assert!(PrivateKey::from_extended_bytes(&high).is_err());
    assert!(chain_tx::keys::Bip32PrivateKey::from_bytes(&[7u8; 96]).is_err());
    let root = chain_tx::keys::Bip32PrivateKey::from_bytes(&good).unwrap();
    assert_eq!(root.as_bytes(), good);
}

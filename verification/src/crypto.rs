//! Trusted wrappers around the cryptographic collaborators: Ed25519
//! signing and verification, BIP32-style extended-key derivation, the
//! Blake2b-256 digest, the PBKDF2 entropy expansion and the operating
//! system's random source.
//!
//! Each wrapper names or states what its callee returns; nothing of the
//! algorithms themselves is restated here.

use vstd::prelude::*;

use rand_os::rand_core::RngCore;

use crate::error::CoreError;

verus! {

/// What the 256-bit `cryptoxide::hashing::blake2b::Blake2b` digest of the
/// input is.
pub uninterp spec fn blake2b256_of(data: Seq<u8>) -> Seq<u8>;

/// What `cryptoxide::ed25519::keypair` returns: the 64-byte keypair
/// (secret then public) expanded from a 32-byte seed.
pub uninterp spec fn ed25519_keypair_of(seed: Seq<u8>) -> Seq<u8>;

/// What `cryptoxide::ed25519::signature` returns for a keypair and message.
pub uninterp spec fn ed25519_sign_of(keypair: Seq<u8>, msg: Seq<u8>) -> Seq<u8>;

/// What `cryptoxide::ed25519::verify` returns for a public key, message
/// and signature.
pub uninterp spec fn ed25519_verify_of(pk: Seq<u8>, msg: Seq<u8>, sig: Seq<u8>) -> bool;

/// What `cryptoxide::ed25519::signature_extended` returns for a 64-byte
/// extended secret and a message.
pub uninterp spec fn extended_sign_of(xsk: Seq<u8>, msg: Seq<u8>) -> Seq<u8>;

/// What `cryptoxide::ed25519::extended_to_public` returns: the 32-byte
/// public point of a 64-byte extended secret.
pub uninterp spec fn extended_public_of(xsk: Seq<u8>) -> Seq<u8>;

/// What `ed25519_bip32::XPrv::derive` returns for a 96-byte extended
/// private key and an index.
pub uninterp spec fn xprv_derive_of(xprv: Seq<u8>, index: u32) -> Seq<u8>;

/// What `ed25519_bip32::XPub::derive` returns for a 64-byte extended
/// public key and a soft index.
pub uninterp spec fn xpub_derive_of(xpub: Seq<u8>, index: u32) -> Seq<u8>;

/// Whether `ed25519_bip32::XPub::derive` succeeds for a 64-byte
/// extended public key and a soft index: the stored point and the
/// computed sum must both decode as curve points, a function of the
/// arguments alone.
pub uninterp spec fn xpub_soft_ok_of(xpub: Seq<u8>, index: u32) -> bool;

/// The extended public key belonging to an extended private key: the
/// public point of the first 64 bytes, then the chain code.
pub open spec fn xpub_of_xprv(x: Seq<u8>) -> Seq<u8> {
    extended_public_of(x.subrange(0, 64)) + x.subrange(64, 96)
}

/// Does the scalar of this 96-byte extended private key sit in the
/// narrow range that `normalize_bytes_force3rd` establishes (top three
/// bits of the last scalar byte clear, set, clear)?
pub open spec fn xprv_root_marked(x: Seq<u8>) -> bool {
    x.len() == 96 && x[31] & 0xE0 == 0x40
}

/// What `cryptoxide::pbkdf2::pbkdf2` with HMAC-SHA512 writes.
pub uninterp spec fn pbkdf2_sha512_of(
    password: Seq<u8>,
    salt: Seq<u8>,
    iters: u32,
    out_len: usize,
) -> Seq<u8>;

/// What `ed25519_bip32::XPrv::normalize_bytes_force3rd` returns: 96
/// bytes tweaked into a well-formed extended private key.
pub uninterp spec fn xprv_normalize_of(bytes: Seq<u8>) -> Seq<u8>;

/// Relies on `cryptoxide::hashing::blake2b::Blake2b`: the Blake2b-256
/// digest of the input, 32 bytes.
#[verifier::external_body]
pub(crate) fn blake2b_256(data: &[u8]) -> (r: Vec<u8>)
    ensures
        r@ == blake2b256_of(data@),
        r@.len() == 32,
{
    cryptoxide::hashing::blake2b::Blake2b::<256>::new().update(data).finalize().to_vec()
}

/// Relies on `cryptoxide::ed25519::keypair`: the keypair holds the seed
/// then the matching public key, and every message signed with it
/// verifies under that public key.
#[verifier::external_body]
pub(crate) fn ed25519_keypair(seed: &[u8]) -> (r: Vec<u8>)
    requires
        seed@.len() == 32,
    ensures
        r@ == ed25519_keypair_of(seed@),
        r@.len() == 64,
        r@.subrange(0, 32) == seed@,
        forall|msg: Seq<u8>|
            ed25519_verify_of(r@.subrange(32, 64), msg, #[trigger] ed25519_sign_of(r@, msg)),
{
    let seed32: &[u8; 32] = seed.try_into().unwrap();
    let (kp, _pk) = cryptoxide::ed25519::keypair(seed32);
    kp.to_vec()
}

/// Relies on `cryptoxide::ed25519::signature`: the 64-byte signature of
/// the message under the keypair.
#[verifier::external_body]
pub(crate) fn ed25519_sign(keypair: &[u8], msg: &[u8]) -> (r: Vec<u8>)
    requires
        keypair@.len() == 64,
    ensures
        r@ == ed25519_sign_of(keypair@, msg@),
        r@.len() == 64,
{
    let kp: &[u8; 64] = keypair.try_into().unwrap();
    cryptoxide::ed25519::signature(msg, kp).to_vec()
}

/// Relies on `cryptoxide::ed25519::verify`: whether the signature is
/// valid for the message under the public key.
#[verifier::external_body]
pub(crate) fn ed25519_verify(pk: &[u8], msg: &[u8], sig: &[u8]) -> (r: bool)
    requires
        pk@.len() == 32,
        sig@.len() == 64,
    ensures
        r == ed25519_verify_of(pk@, msg@, sig@),
{
    let p: &[u8; 32] = pk.try_into().unwrap();
    let s: &[u8; 64] = sig.try_into().unwrap();
    cryptoxide::ed25519::verify(msg, p, s)
}

/// Relies on `cryptoxide::ed25519::signature_extended`: the 64-byte
/// signature of the message under the extended secret.  The scalar must
/// stay below the base-point multiplication's bound (top byte below
/// `0x80`); the source then shows the embedded public point and the
/// verification equation agree, so the signature always verifies under
/// the secret's public point.
#[verifier::external_body]
pub(crate) fn extended_sign(xsk: &[u8], msg: &[u8]) -> (r: Vec<u8>)
    requires
        xsk@.len() == 64,
        xsk@[31] < 0x80,
    ensures
        r@ == extended_sign_of(xsk@, msg@),
        r@.len() == 64,
        ed25519_verify_of(extended_public_of(xsk@), msg@, r@),
{
    let x: &[u8; 64] = xsk.try_into().unwrap();
    cryptoxide::ed25519::signature_extended(msg, x).to_vec()
}

/// Relies on `cryptoxide::ed25519::extended_to_public`: the 32-byte
/// public point of the extended secret.  The scalar must stay below the
/// base-point multiplication's bound (top byte below `0x80`).
#[verifier::external_body]
pub(crate) fn extended_public(xsk: &[u8]) -> (r: Vec<u8>)
    requires
        xsk@.len() == 64,
        xsk@[31] < 0x80,
    ensures
        r@ == extended_public_of(xsk@),
        r@.len() == 32,
{
    let x: &[u8; 64] = xsk.try_into().unwrap();
    cryptoxide::ed25519::extended_to_public(x).to_vec()
}

/// Relies on `ed25519_bip32::XPrv::derive` with scheme V2: derivation
/// never fails and yields another 96-byte extended private key.
#[verifier::external_body]
pub(crate) fn xprv_derive(xprv: &[u8], index: u32) -> (r: Vec<u8>)
    requires
        xprv@.len() == 96,
    ensures
        r@ == xprv_derive_of(xprv@, index),
        r@.len() == 96,
{
    let sk: &[u8; 64] = (&xprv[0..64]).try_into().unwrap();
    let cc: &[u8; 32] = (&xprv[64..96]).try_into().unwrap();
    let key = ed25519_bip32::XPrv::from_extended_and_chaincode(sk, cc);
    key.derive(ed25519_bip32::DerivationScheme::V2, index).as_ref().to_vec()
}

/// Relies on `ed25519_bip32::XPub::derive` with scheme V2: a hard index
/// (bit 31 set) is refused outright; a soft index succeeds exactly when
/// the point arithmetic does, a condition of the arguments alone.  The
/// crate documents that soft derivation from the parent public key
/// yields the softly derived child's public key; that commutation is
/// stated for parents whose scalar carries the normalized-range
/// markers, where the point arithmetic stays within its bounds.
#[verifier::external_body]
pub(crate) fn xpub_derive(xpub: &[u8], index: u32) -> (r: Result<Vec<u8>, CoreError>)
    requires
        xpub@.len() == 64,
    ensures
        match r {
            Ok(v) => {
                &&& index < 0x8000_0000
                &&& xpub_soft_ok_of(xpub@, index)
                &&& v@ == xpub_derive_of(xpub@, index)
                &&& v@.len() == 64
                &&& forall|xprv: Seq<u8>|
                    xprv_root_marked(xprv) && xpub@ == xpub_of_xprv(xprv) ==> v@
                        == xpub_of_xprv(#[trigger] xprv_derive_of(xprv, index))
            },
            Err(e) => {
                ||| index >= 0x8000_0000 && e == CoreError::HardDerivationOnPublicKey
                ||| index < 0x8000_0000 && !xpub_soft_ok_of(xpub@, index) && e
                    == CoreError::MalformedInput
            },
        },
{
    let p: &[u8; 64] = xpub.try_into().unwrap();
    let key = ed25519_bip32::XPub::from_bytes(*p);
    match key.derive(ed25519_bip32::DerivationScheme::V2, index) {
        Ok(child) => Ok(child.as_ref().to_vec()),
        Err(ed25519_bip32::DerivationError::ExpectedSoftDerivation) => Err(
            CoreError::HardDerivationOnPublicKey,
        ),
        Err(ed25519_bip32::DerivationError::InvalidAddition) => Err(CoreError::MalformedInput),
    }
}

/// Relies on `cryptoxide::pbkdf2::pbkdf2` with HMAC-SHA512: fills
/// exactly `out_len` bytes derived from the password and salt.
#[verifier::external_body]
pub(crate) fn pbkdf2_sha512(password: &[u8], salt: &[u8], iters: u32, out_len: usize) -> (r: Vec<
    u8,
>)
    requires
        iters >= 1,
        out_len <= 1024,
    ensures
        r@ == pbkdf2_sha512_of(password@, salt@, iters, out_len),
        r@.len() == out_len,
{
    let mut out = vec![0u8; out_len];
    cryptoxide::pbkdf2::pbkdf2::<cryptoxide::hashing::sha2::Sha512>(
        password,
        salt,
        iters,
        &mut out,
    );
    out
}

/// Relies on `ed25519_bip32::XPrv::normalize_bytes_force3rd`: the bytes
/// with the scalar bits tweaked into a well-formed extended private
/// key.  The source clears the low three bits of the first scalar byte
/// and forces the top three bits of the last scalar byte to zero, one,
/// zero.
#[verifier::external_body]
pub(crate) fn xprv_normalize_force3rd(bytes: &[u8]) -> (r: Vec<u8>)
    requires
        bytes@.len() == 96,
    ensures
        r@ == xprv_normalize_of(bytes@),
        r@.len() == 96,
        r@[0] & 0x07 == 0,
        r@[31] & 0xE0 == 0x40,
{
    let b: &[u8; 96] = bytes.try_into().unwrap();
    ed25519_bip32::XPrv::normalize_bytes_force3rd(*b).as_ref().to_vec()
}

/// Relies on `rand_os::OsRng::try_fill_bytes`: `n` bytes from the
/// operating system's random source, or a failure of that source.
#[verifier::external_body]
pub(crate) fn random_bytes(n: usize) -> (r: Result<Vec<u8>, CoreError>)
    ensures
        r matches Ok(v) ==> v@.len() == n,
{
    let mut buf = vec![0u8; n];
    match rand_os::OsRng.try_fill_bytes(&mut buf) {
        Ok(()) => Ok(buf),
        Err(_) => Err(CoreError::RandomSourceFailed),
    }
}

} // verus!

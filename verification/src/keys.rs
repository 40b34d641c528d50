//! Ed25519 keys, BIP32-style extended keys and signatures.
//!
//! A normal secret is a 64-byte keypair (seed then public point); an
//! extended secret is 96 bytes (64-byte extended scalar then a 32-byte
//! chain code) and supports indexed derivation.  Indices at or above
//! `0x80000000` are hard: they derive only from the private key.

use vstd::prelude::*;
use vstd::string::StringExecFns;

use crate::bytes::copy_range;
use crate::bytes::push_bytes;
use crate::codec::bech32_decode;
use crate::codec::bech32_encode;
use crate::codec::bech32_str_of;
use crate::codec::hex_decode;
use crate::codec::hex_encode;
use crate::codec::hex_of;
use crate::crypto;
use crate::crypto::ed25519_keypair_of;
use crate::crypto::ed25519_sign_of;
use crate::crypto::ed25519_verify_of;
use crate::crypto::extended_public_of;
use crate::crypto::extended_sign_of;
use crate::crypto::pbkdf2_sha512_of;
use crate::crypto::xprv_derive_of;
use crate::crypto::xprv_normalize_of;
use crate::crypto::xprv_root_marked;
use crate::crypto::xpub_derive_of;
use crate::crypto::xpub_of_xprv;
use crate::crypto::xpub_soft_ok_of;
use crate::error::CoreError;

verus! {

/// The first soft derivation index that is hard: `0x80000000`.
pub open spec fn spec_hard_index_start() -> u32 {
    0x8000_0000
}

/// Does the scalar at the front of this secret carry the extended-key
/// markers: low three bits of the first byte clear, top bit of the last
/// scalar byte clear, the bit below it set?  Every extended secret the
/// library accepts or produces carries them; they keep the scalar below
/// the curve arithmetic's bound.
pub open spec fn scalar_marked(b: Seq<u8>) -> bool {
    &&& b.len() >= 32
    &&& b[0] & 0x07 == 0
    &&& b[31] & 0xC0 == 0x40
}

/// Decide [`scalar_marked`] on a byte string known to be long enough.
pub(crate) fn check_scalar_marked(b: &[u8]) -> (r: bool)
    requires
        b@.len() >= 32,
    ensures
        r == scalar_marked(b@),
{
    (b[0] & 0x07) == 0 && (b[31] & 0xC0) == 0x40
}

/// A marked scalar byte stays below the curve arithmetic's bound.
pub proof fn lemma_marked_top_byte(x: u8)
    requires
        x & 0xC0 == 0x40,
    ensures
        x < 0x80,
{
    assert(x & 0xC0 == 0x40 ==> x < 0x80) by (bit_vector);
}

/// The normalized top-byte pattern implies the marker pattern.
pub proof fn lemma_normalized_is_marked(x: u8)
    requires
        x & 0xE0 == 0x40,
    ensures
        x & 0xC0 == 0x40,
{
    assert(x & 0xE0 == 0x40 ==> x & 0xC0 == 0x40) by (bit_vector);
}

/// Copy a whole vector of bytes.
pub(crate) fn dup_bytes(v: &Vec<u8>) -> (r: Vec<u8>)
    ensures
        r@ == v@,
{
    let n = v.len();
    let r = copy_range(v.as_slice(), 0, n);
    proof {
        assert(v@.subrange(0, n as int) =~= v@);
    }
    r
}

/// An Ed25519 public key: 32 raw bytes of a curve point.
#[derive(Clone, Debug)]
pub struct PublicKey {
    pub bytes: Vec<u8>,
}

/// An Ed25519 signature: 64 raw bytes.
#[derive(Clone, Debug)]
pub struct Ed25519Signature {
    pub bytes: Vec<u8>,
}

/// A witness signature for an account input.
#[derive(Clone, Debug)]
pub struct AccountWitness {
    pub bytes: Vec<u8>,
}

/// A witness signature for a UTXO input.
#[derive(Clone, Debug)]
pub struct UtxoWitness {
    pub bytes: Vec<u8>,
}

/// A witness signature for a legacy UTXO input, made with an extended key.
#[derive(Clone, Debug)]
pub struct LegacyUtxoWitness {
    pub bytes: Vec<u8>,
}

/// Read a 64-byte signature from raw bytes.
fn sig_from_bytes(bytes: &[u8]) -> (r: Result<Vec<u8>, CoreError>)
    ensures
        match r {
            Ok(v) => bytes@.len() == 64 && v@ == bytes@,
            Err(e) => bytes@.len() != 64 && e == CoreError::MalformedInput,
        },
{
    if bytes.len() == 64 {
        let n = bytes.len();
        let v = copy_range(bytes, 0, n);
        proof {
            assert(bytes@.subrange(0, n as int) =~= bytes@);
        }
        Ok(v)
    } else {
        Err(CoreError::MalformedInput)
    }
}

/// Read a 64-byte signature from its bech32 rendering under `ed25519_sig`.
fn sig_from_bech32(s: &str) -> (r: Result<Vec<u8>, CoreError>)
    ensures
        match r {
            Ok(v) => v@.len() == 64 && forall|d: Seq<u8>|
                d.len() == 64 && s@ == #[trigger] bech32_str_of("ed25519_sig"@, d) ==> v@ == d,
            Err(_) => forall|d: Seq<u8>|
                d.len() == 64 ==> s@ != #[trigger] bech32_str_of("ed25519_sig"@, d),
        },
{
    proof {
        reveal_strlit("ed25519_sig");
    }
    let expected = String::from_str("ed25519_sig");
    match bech32_decode(s) {
        Ok((hrp, data)) => {
            if hrp == expected && data.len() == 64 {
                Ok(data)
            } else {
                proof {
                    assert forall|d: Seq<u8>| d.len() == 64 implies s@
                        != #[trigger] bech32_str_of("ed25519_sig"@, d) by {
                        if s@ == bech32_str_of("ed25519_sig"@, d) {
                            assert(valid_prefix_sig());
                        }
                    }
                }
                Err(CoreError::InvalidChecksum)
            }
        },
        Err(_) => {
            proof {
                assert forall|d: Seq<u8>| d.len() == 64 implies s@ != #[trigger] bech32_str_of(
                    "ed25519_sig"@,
                    d,
                ) by {
                    if s@ == bech32_str_of("ed25519_sig"@, d) {
                        assert(valid_prefix_sig());
                    }
                }
            }
            Err(CoreError::InvalidChecksum)
        },
    }
}

/// The signature prefix is a usable bech32 prefix.
spec fn valid_prefix_sig() -> bool {
    crate::codec::valid_prefix("ed25519_sig"@)
}

/// Read a 64-byte signature from its hex rendering.
fn sig_from_hex(s: &str) -> (r: Result<Vec<u8>, CoreError>)
    ensures
        match r {
            Ok(v) => v@.len() == 64 && forall|bs: Seq<u8>| s@ == hex_of(bs) ==> v@ == bs,
            Err(_) => forall|bs: Seq<u8>| bs.len() == 64 ==> s@ != #[trigger] hex_of(bs),
        },
{
    match hex_decode(s) {
        Ok(v) => {
            if v.len() == 64 {
                Ok(v)
            } else {
                proof {
                    assert forall|bs: Seq<u8>| bs.len() == 64 implies s@ != #[trigger] hex_of(
                        bs,
                    ) by {
                        if s@ == hex_of(bs) {
                            assert(v@ == bs);
                        }
                    }
                }
                Err(CoreError::MalformedInput)
            }
        },
        Err(_) => Err(CoreError::InvalidEncoding),
    }
}

impl Ed25519Signature {
    /// Is the signature well formed: exactly 64 bytes?
    pub open spec fn wf(&self) -> bool {
        self.bytes@.len() == 64
    }

    /// The raw signature bytes.
    pub fn as_bytes(&self) -> (r: Vec<u8>)
        ensures
            r@ == self.bytes@,
    {
        dup_bytes(&self.bytes)
    }

    /// The bech32 rendering of the signature under `ed25519_sig`.
    pub fn to_bech32(&self) -> (r: String)
        requires
            self.wf(),
        ensures
            r@ == bech32_str_of("ed25519_sig"@, self.bytes@),
    {
        proof {
            reveal_strlit("ed25519_sig");
        }
        bech32_encode("ed25519_sig", self.bytes.as_slice())
    }

    /// The lowercase hex rendering of the signature.
    pub fn to_hex(&self) -> (r: String)
        ensures
            r@ == hex_of(self.bytes@),
    {
        hex_encode(self.bytes.as_slice())
    }

    /// Read a signature from its raw 64 bytes.
    pub fn from_bytes(bytes: &[u8]) -> (r: Result<Ed25519Signature, CoreError>)
        ensures
            match r {
                Ok(v) => bytes@.len() == 64 && v.bytes@ == bytes@,
                Err(e) => bytes@.len() != 64 && e == CoreError::MalformedInput,
            },
    {
        match sig_from_bytes(bytes) {
            Ok(v) => Ok(Ed25519Signature { bytes: v }),
            Err(e) => Err(e),
        }
    }

    /// Read a signature from its bech32 rendering.
    pub fn from_bech32(bech32_str: &str) -> (r: Result<Ed25519Signature, CoreError>)
        ensures
            match r {
                Ok(v) => v.wf() && forall|d: Seq<u8>|
                    d.len() == 64 && bech32_str@ == #[trigger] bech32_str_of("ed25519_sig"@, d)
                        ==> v.bytes@ == d,
                Err(_) => forall|d: Seq<u8>|
                    d.len() == 64 ==> bech32_str@ != #[trigger] bech32_str_of(
                        "ed25519_sig"@,
                        d,
                    ),
            },
    {
        match sig_from_bech32(bech32_str) {
            Ok(v) => Ok(Ed25519Signature { bytes: v }),
            Err(e) => Err(e),
        }
    }

    /// Read a signature from its hex rendering.
    pub fn from_hex(input: &str) -> (r: Result<Ed25519Signature, CoreError>)
        ensures
            match r {
                Ok(v) => v.wf() && forall|bs: Seq<u8>| input@ == hex_of(bs) ==> v.bytes@ == bs,
                Err(_) => forall|bs: Seq<u8>|
                    bs.len() == 64 ==> input@ != #[trigger] hex_of(bs),
            },
    {
        match sig_from_hex(input) {
            Ok(v) => Ok(Ed25519Signature { bytes: v }),
            Err(e) => Err(e),
        }
    }
}

impl AccountWitness {
    /// Is the signature well formed: exactly 64 bytes?
    pub open spec fn wf(&self) -> bool {
        self.bytes@.len() == 64
    }

    /// The raw signature bytes.
    pub fn as_bytes(&self) -> (r: Vec<u8>)
        ensures
            r@ == self.bytes@,
    {
        dup_bytes(&self.bytes)
    }

    /// The bech32 rendering of the signature under `ed25519_sig`.
    pub fn to_bech32(&self) -> (r: String)
        requires
            self.wf(),
        ensures
            r@ == bech32_str_of("ed25519_sig"@, self.bytes@),
    {
        proof {
            reveal_strlit("ed25519_sig");
        }
        bech32_encode("ed25519_sig", self.bytes.as_slice())
    }

    /// The lowercase hex rendering of the signature.
    pub fn to_hex(&self) -> (r: String)
        ensures
            r@ == hex_of(self.bytes@),
    {
        hex_encode(self.bytes.as_slice())
    }

    /// Read a signature from its raw 64 bytes.
    pub fn from_bytes(bytes: &[u8]) -> (r: Result<AccountWitness, CoreError>)
        ensures
            match r {
                Ok(v) => bytes@.len() == 64 && v.bytes@ == bytes@,
                Err(e) => bytes@.len() != 64 && e == CoreError::MalformedInput,
            },
    {
        match sig_from_bytes(bytes) {
            Ok(v) => Ok(AccountWitness { bytes: v }),
            Err(e) => Err(e),
        }
    }

    /// Read a signature from its bech32 rendering.
    pub fn from_bech32(bech32_str: &str) -> (r: Result<AccountWitness, CoreError>)
        ensures
            match r {
                Ok(v) => v.wf() && forall|d: Seq<u8>|
                    d.len() == 64 && bech32_str@ == #[trigger] bech32_str_of("ed25519_sig"@, d)
                        ==> v.bytes@ == d,
                Err(_) => forall|d: Seq<u8>|
                    d.len() == 64 ==> bech32_str@ != #[trigger] bech32_str_of(
                        "ed25519_sig"@,
                        d,
                    ),
            },
    {
        match sig_from_bech32(bech32_str) {
            Ok(v) => Ok(AccountWitness { bytes: v }),
            Err(e) => Err(e),
        }
    }

    /// Read a signature from its hex rendering.
    pub fn from_hex(input: &str) -> (r: Result<AccountWitness, CoreError>)
        ensures
            match r {
                Ok(v) => v.wf() && forall|bs: Seq<u8>| input@ == hex_of(bs) ==> v.bytes@ == bs,
                Err(_) => forall|bs: Seq<u8>|
                    bs.len() == 64 ==> input@ != #[trigger] hex_of(bs),
            },
    {
        match sig_from_hex(input) {
            Ok(v) => Ok(AccountWitness { bytes: v }),
            Err(e) => Err(e),
        }
    }
}

impl UtxoWitness {
    /// Is the signature well formed: exactly 64 bytes?
    pub open spec fn wf(&self) -> bool {
        self.bytes@.len() == 64
    }

    /// The raw signature bytes.
    pub fn as_bytes(&self) -> (r: Vec<u8>)
        ensures
            r@ == self.bytes@,
    {
        dup_bytes(&self.bytes)
    }

    /// The bech32 rendering of the signature under `ed25519_sig`.
    pub fn to_bech32(&self) -> (r: String)
        requires
            self.wf(),
        ensures
            r@ == bech32_str_of("ed25519_sig"@, self.bytes@),
    {
        proof {
            reveal_strlit("ed25519_sig");
        }
        bech32_encode("ed25519_sig", self.bytes.as_slice())
    }

    /// The lowercase hex rendering of the signature.
    pub fn to_hex(&self) -> (r: String)
        ensures
            r@ == hex_of(self.bytes@),
    {
        hex_encode(self.bytes.as_slice())
    }

    /// Read a signature from its raw 64 bytes.
    pub fn from_bytes(bytes: &[u8]) -> (r: Result<UtxoWitness, CoreError>)
        ensures
            match r {
                Ok(v) => bytes@.len() == 64 && v.bytes@ == bytes@,
                Err(e) => bytes@.len() != 64 && e == CoreError::MalformedInput,
            },
    {
        match sig_from_bytes(bytes) {
            Ok(v) => Ok(UtxoWitness { bytes: v }),
            Err(e) => Err(e),
        }
    }

    /// Read a signature from its bech32 rendering.
    pub fn from_bech32(bech32_str: &str) -> (r: Result<UtxoWitness, CoreError>)
        ensures
            match r {
                Ok(v) => v.wf() && forall|d: Seq<u8>|
                    d.len() == 64 && bech32_str@ == #[trigger] bech32_str_of("ed25519_sig"@, d)
                        ==> v.bytes@ == d,
                Err(_) => forall|d: Seq<u8>|
                    d.len() == 64 ==> bech32_str@ != #[trigger] bech32_str_of(
                        "ed25519_sig"@,
                        d,
                    ),
            },
    {
        match sig_from_bech32(bech32_str) {
            Ok(v) => Ok(UtxoWitness { bytes: v }),
            Err(e) => Err(e),
        }
    }

    /// Read a signature from its hex rendering.
    pub fn from_hex(input: &str) -> (r: Result<UtxoWitness, CoreError>)
        ensures
            match r {
                Ok(v) => v.wf() && forall|bs: Seq<u8>| input@ == hex_of(bs) ==> v.bytes@ == bs,
                Err(_) => forall|bs: Seq<u8>|
                    bs.len() == 64 ==> input@ != #[trigger] hex_of(bs),
            },
    {
        match sig_from_hex(input) {
            Ok(v) => Ok(UtxoWitness { bytes: v }),
            Err(e) => Err(e),
        }
    }
}

impl LegacyUtxoWitness {
    /// Is the signature well formed: exactly 64 bytes?
    pub open spec fn wf(&self) -> bool {
        self.bytes@.len() == 64
    }

    /// The raw signature bytes.
    pub fn as_bytes(&self) -> (r: Vec<u8>)
        ensures
            r@ == self.bytes@,
    {
        dup_bytes(&self.bytes)
    }

    /// The bech32 rendering of the signature under `ed25519_sig`.
    pub fn to_bech32(&self) -> (r: String)
        requires
            self.wf(),
        ensures
            r@ == bech32_str_of("ed25519_sig"@, self.bytes@),
    {
        proof {
            reveal_strlit("ed25519_sig");
        }
        bech32_encode("ed25519_sig", self.bytes.as_slice())
    }

    /// The lowercase hex rendering of the signature.
    pub fn to_hex(&self) -> (r: String)
        ensures
            r@ == hex_of(self.bytes@),
    {
        hex_encode(self.bytes.as_slice())
    }

    /// Read a signature from its raw 64 bytes.
    pub fn from_bytes(bytes: &[u8]) -> (r: Result<LegacyUtxoWitness, CoreError>)
        ensures
            match r {
                Ok(v) => bytes@.len() == 64 && v.bytes@ == bytes@,
                Err(e) => bytes@.len() != 64 && e == CoreError::MalformedInput,
            },
    {
        match sig_from_bytes(bytes) {
            Ok(v) => Ok(LegacyUtxoWitness { bytes: v }),
            Err(e) => Err(e),
        }
    }

    /// Read a signature from its bech32 rendering.
    pub fn from_bech32(bech32_str: &str) -> (r: Result<LegacyUtxoWitness, CoreError>)
        ensures
            match r {
                Ok(v) => v.wf() && forall|d: Seq<u8>|
                    d.len() == 64 && bech32_str@ == #[trigger] bech32_str_of("ed25519_sig"@, d)
                        ==> v.bytes@ == d,
                Err(_) => forall|d: Seq<u8>|
                    d.len() == 64 ==> bech32_str@ != #[trigger] bech32_str_of(
                        "ed25519_sig"@,
                        d,
                    ),
            },
    {
        match sig_from_bech32(bech32_str) {
            Ok(v) => Ok(LegacyUtxoWitness { bytes: v }),
            Err(e) => Err(e),
        }
    }

    /// Read a signature from its hex rendering.
    pub fn from_hex(input: &str) -> (r: Result<LegacyUtxoWitness, CoreError>)
        ensures
            match r {
                Ok(v) => v.wf() && forall|bs: Seq<u8>| input@ == hex_of(bs) ==> v.bytes@ == bs,
                Err(_) => forall|bs: Seq<u8>|
                    bs.len() == 64 ==> input@ != #[trigger] hex_of(bs),
            },
    {
        match sig_from_hex(input) {
            Ok(v) => Ok(LegacyUtxoWitness { bytes: v }),
            Err(e) => Err(e),
        }
    }
}

/// An Ed25519 signing key: either a normal 64-byte keypair or a 96-byte
/// extended secret that still carries its chain code.
#[derive(Clone, Debug)]
pub enum PrivateKey {
    /// A 64-byte keypair: the 32-byte seed, then the 32-byte public point.
    Normal(Vec<u8>),
    /// A 96-byte extended secret: 64 scalar-and-nonce bytes carrying the
    /// extended-key markers, then the chain code.
    Extended(Vec<u8>),
}

impl PrivateKey {
    /// Is the key well formed for its kind?
    pub open spec fn wf(&self) -> bool {
        match self {
            PrivateKey::Normal(b) => b@.len() == 64,
            PrivateKey::Extended(b) => b@.len() == 96 && scalar_marked(b@),
        }
    }

    /// The public key of this secret.
    pub fn to_public(&self) -> (r: PublicKey)
        requires
            self.wf(),
        ensures
            r.bytes@.len() == 32,
            match self {
                PrivateKey::Normal(b) => r.bytes@ == b@.subrange(32, 64),
                PrivateKey::Extended(b) => r.bytes@ == extended_public_of(b@.subrange(0, 64)),
            },
    {
        match self {
            PrivateKey::Normal(b) => PublicKey { bytes: copy_range(b.as_slice(), 32, 32) },
            PrivateKey::Extended(b) => {
                let xsk = copy_range(b.as_slice(), 0, 64);
                proof {
                    lemma_marked_top_byte(b@[31]);
                    assert(xsk@[31] == b@[31]);
                }
                PublicKey { bytes: crypto::extended_public(xsk.as_slice()) }
            },
        }
    }

    /// A fresh normal key from the operating system's random source.
    ///
    /// Every message signed with the returned key verifies under the
    /// key's public point.
    pub fn generate_ed25519() -> (r: Result<PrivateKey, CoreError>)
        ensures
            match r {
                Ok(k) => {
                    &&& k.wf()
                    &&& k matches PrivateKey::Normal(b)
                    &&& forall|msg: Seq<u8>|
                        ed25519_verify_of(
                            b@.subrange(32, 64),
                            msg,
                            #[trigger] ed25519_sign_of(b@, msg),
                        )
                },
                Err(e) => e == CoreError::RandomSourceFailed,
            },
    {
        match crypto::random_bytes(32) {
            Ok(seed) => Ok(PrivateKey::Normal(crypto::ed25519_keypair(seed.as_slice()))),
            Err(_) => Err(CoreError::RandomSourceFailed),
        }
    }

    /// A fresh extended key from the operating system's random source.
    pub fn generate_ed25519extended() -> (r: Result<PrivateKey, CoreError>)
        ensures
            match r {
                Ok(k) => k.wf() && k matches PrivateKey::Extended(_),
                Err(e) => e == CoreError::RandomSourceFailed,
            },
    {
        match crypto::random_bytes(96) {
            Ok(raw) => {
                let normalized = crypto::xprv_normalize_force3rd(raw.as_slice());
                proof {
                    lemma_normalized_is_marked(normalized@[31]);
                }
                Ok(PrivateKey::Extended(normalized))
            },
            Err(_) => Err(CoreError::RandomSourceFailed),
        }
    }

    /// The bech32 rendering: `ed25519_sk` for a normal key, `ed25519e_sk`
    /// for an extended one.
    pub fn to_bech32(&self) -> (r: String)
        requires
            self.wf(),
        ensures
            match self {
                PrivateKey::Normal(b) => r@ == bech32_str_of("ed25519_sk"@, b@),
                PrivateKey::Extended(b) => r@ == bech32_str_of("ed25519e_sk"@, b@),
            },
    {
        proof {
            reveal_strlit("ed25519_sk");
            reveal_strlit("ed25519e_sk");
        }
        match self {
            PrivateKey::Normal(b) => bech32_encode("ed25519_sk", b.as_slice()),
            PrivateKey::Extended(b) => bech32_encode("ed25519e_sk", b.as_slice()),
        }
    }

    /// Read a key from its bech32 rendering, accepting either prefix.
    pub fn from_bech32(bech32_str: &str) -> (r: Result<PrivateKey, CoreError>)
        ensures
            match r {
                Ok(k) => k.wf(),
                Err(e) => e == CoreError::InvalidChecksum,
            },
            forall|d: Seq<u8>|
                d.len() == 64 && bech32_str@ == #[trigger] bech32_str_of("ed25519_sk"@, d)
                    ==> (r matches Ok(k) && k matches PrivateKey::Normal(b) && b@ == d),
            forall|d: Seq<u8>|
                d.len() == 96 && scalar_marked(d) && bech32_str@ == #[trigger] bech32_str_of(
                    "ed25519e_sk"@,
                    d,
                ) ==> (r matches Ok(k) && k matches PrivateKey::Extended(b) && b@ == d),
    {
        proof {
            reveal_strlit("ed25519_sk");
            reveal_strlit("ed25519e_sk");
        }
        let normal = String::from_str("ed25519_sk");
        let extended = String::from_str("ed25519e_sk");
        match bech32_decode(bech32_str) {
            Ok((hrp, data)) => {
                if hrp == normal && data.len() == 64 {
                    Ok(PrivateKey::Normal(data))
                } else if hrp == extended && data.len() == 96
                    && check_scalar_marked(data.as_slice()) {
                    Ok(PrivateKey::Extended(data))
                } else {
                    Err(CoreError::InvalidChecksum)
                }
            },
            Err(_) => Err(CoreError::InvalidChecksum),
        }
    }

    /// The raw bytes of the secret.
    pub fn as_bytes(&self) -> (r: Vec<u8>)
        ensures
            match self {
                PrivateKey::Normal(b) => r@ == b@,
                PrivateKey::Extended(b) => r@ == b@,
            },
    {
        match self {
            PrivateKey::Normal(b) => dup_bytes(b),
            PrivateKey::Extended(b) => dup_bytes(b),
        }
    }

    /// Read an extended key from its raw 96 bytes; the scalar must
    /// carry the extended-key markers.
    pub fn from_extended_bytes(bytes: &[u8]) -> (r: Result<PrivateKey, CoreError>)
        ensures
            match r {
                Ok(k) => {
                    &&& bytes@.len() == 96
                    &&& scalar_marked(bytes@)
                    &&& (k matches PrivateKey::Extended(b) && b@ == bytes@)
                    &&& k.wf()
                },
                Err(e) => !(bytes@.len() == 96 && scalar_marked(bytes@)) && e
                    == CoreError::MalformedInput,
            },
    {
        if bytes.len() == 96 && check_scalar_marked(bytes) {
            let n = bytes.len();
            let v = copy_range(bytes, 0, n);
            proof {
                assert(bytes@.subrange(0, n as int) =~= bytes@);
            }
            Ok(PrivateKey::Extended(v))
        } else {
            Err(CoreError::MalformedInput)
        }
    }

    /// Read a normal key from its raw 64 bytes.
    pub fn from_normal_bytes(bytes: &[u8]) -> (r: Result<PrivateKey, CoreError>)
        ensures
            match r {
                Ok(k) => bytes@.len() == 64 && (k matches PrivateKey::Normal(b) && b@
                    == bytes@),
                Err(e) => bytes@.len() != 64 && e == CoreError::MalformedInput,
            },
    {
        if bytes.len() == 64 {
            let n = bytes.len();
            let v = copy_range(bytes, 0, n);
            proof {
                assert(bytes@.subrange(0, n as int) =~= bytes@);
            }
            Ok(PrivateKey::Normal(v))
        } else {
            Err(CoreError::MalformedInput)
        }
    }

    /// Sign a message with this key.
    pub fn sign(&self, message: &[u8]) -> (r: Ed25519Signature)
        requires
            self.wf(),
        ensures
            r.wf(),
            match self {
                PrivateKey::Normal(b) => r.bytes@ == ed25519_sign_of(b@, message@),
                PrivateKey::Extended(b) => r.bytes@ == extended_sign_of(
                    b@.subrange(0, 64),
                    message@,
                ) && ed25519_verify_of(
                    extended_public_of(b@.subrange(0, 64)),
                    message@,
                    r.bytes@,
                ),
            },
    {
        match self {
            PrivateKey::Normal(b) => Ed25519Signature {
                bytes: crypto::ed25519_sign(b.as_slice(), message),
            },
            PrivateKey::Extended(b) => {
                let xsk = copy_range(b.as_slice(), 0, 64);
                proof {
                    lemma_marked_top_byte(b@[31]);
                    assert(xsk@[31] == b@[31]);
                }
                Ed25519Signature { bytes: crypto::extended_sign(xsk.as_slice(), message) }
            },
        }
    }
}

impl PublicKey {
    /// Is the key well formed: exactly 32 bytes?
    pub open spec fn wf(&self) -> bool {
        self.bytes@.len() == 32
    }

    /// Read a key from its bech32 rendering under `ed25519_pk`.
    pub fn from_bech32(bech32_str: &str) -> (r: Result<PublicKey, CoreError>)
        ensures
            match r {
                Ok(k) => k.wf() && forall|d: Seq<u8>|
                    d.len() == 32 && bech32_str@ == #[trigger] bech32_str_of("ed25519_pk"@, d)
                        ==> k.bytes@ == d,
                Err(_) => forall|d: Seq<u8>|
                    d.len() == 32 ==> bech32_str@ != #[trigger] bech32_str_of("ed25519_pk"@, d),
            },
    {
        proof {
            reveal_strlit("ed25519_pk");
        }
        let expected = String::from_str("ed25519_pk");
        match bech32_decode(bech32_str) {
            Ok((hrp, data)) => {
                if hrp == expected && data.len() == 32 {
                    Ok(PublicKey { bytes: data })
                } else {
                    Err(CoreError::InvalidChecksum)
                }
            },
            Err(_) => Err(CoreError::InvalidChecksum),
        }
    }

    /// The bech32 rendering of the key under `ed25519_pk`.
    pub fn to_bech32(&self) -> (r: String)
        requires
            self.wf(),
        ensures
            r@ == bech32_str_of("ed25519_pk"@, self.bytes@),
    {
        proof {
            reveal_strlit("ed25519_pk");
        }
        bech32_encode("ed25519_pk", self.bytes.as_slice())
    }

    /// The raw key bytes.
    pub fn as_bytes(&self) -> (r: Vec<u8>)
        ensures
            r@ == self.bytes@,
    {
        dup_bytes(&self.bytes)
    }

    /// Read a key from its raw 32 bytes.
    pub fn from_bytes(bytes: &[u8]) -> (r: Result<PublicKey, CoreError>)
        ensures
            match r {
                Ok(k) => bytes@.len() == 32 && k.bytes@ == bytes@,
                Err(e) => bytes@.len() != 32 && e == CoreError::MalformedInput,
            },
    {
        if bytes.len() == 32 {
            let n = bytes.len();
            let v = copy_range(bytes, 0, n);
            proof {
                assert(bytes@.subrange(0, n as int) =~= bytes@);
            }
            Ok(PublicKey { bytes: v })
        } else {
            Err(CoreError::MalformedInput)
        }
    }

    /// Check a signature over a message against this key.
    pub fn verify(&self, data: &[u8], signature: &Ed25519Signature) -> (r: bool)
        requires
            self.wf(),
            signature.wf(),
        ensures
            r == ed25519_verify_of(self.bytes@, data@, signature.bytes@),
    {
        crypto::ed25519_verify(self.bytes.as_slice(), data, signature.bytes.as_slice())
    }
}

/// An ordered collection of public keys.
#[derive(Clone, Debug)]
pub struct PublicKeys {
    pub keys: Vec<PublicKey>,
}

impl PublicKeys {
    /// The empty collection.
    pub fn new() -> (r: PublicKeys)
        ensures
            r.keys@.len() == 0,
    {
        PublicKeys { keys: Vec::new() }
    }

    /// How many keys the collection holds.
    pub fn size(&self) -> (r: usize)
        ensures
            r == self.keys@.len(),
    {
        self.keys.len()
    }

    /// The key at `index`.
    pub fn get(&self, index: usize) -> (r: PublicKey)
        requires
            index < self.keys@.len(),
        ensures
            r.bytes@ == self.keys@[index as int].bytes@,
    {
        PublicKey { bytes: dup_bytes(&self.keys[index].bytes) }
    }

    /// Append a key, keeping the order of insertion.
    pub fn add(&mut self, key: &PublicKey)
        ensures
            final(self).keys@.len() == old(self).keys@.len() + 1,
            final(self).keys@.last().bytes@ == key.bytes@,
            forall|i: int|
                0 <= i < old(self).keys@.len() ==> final(self).keys@[i] == old(self).keys@[i],
    {
        self.keys.push(PublicKey { bytes: dup_bytes(&key.bytes) });
    }
}

/// An extended private key with its chain code, supporting indexed
/// derivation: 96 bytes.
#[derive(Clone, Debug)]
pub struct Bip32PrivateKey {
    pub xprv: Vec<u8>,
}

impl Bip32PrivateKey {
    /// Is the key well formed: exactly 96 bytes, with the scalar
    /// carrying the extended-key markers?
    pub open spec fn wf(&self) -> bool {
        self.xprv@.len() == 96 && scalar_marked(self.xprv@)
    }

    /// Derive the child key at `index`.  Derivation of a private key
    /// never fails; indices at or above `0x80000000` are hard.
    ///
    /// Derivation adds a small multiple of eight to a scalar far below
    /// the top of its range, so a derived key keeps the extended-key
    /// markers; should a chain of derivations ever drift out of that
    /// range, the scalar is normalized back into it so that the result
    /// always signs within the curve arithmetic's bounds.
    pub fn derive(&self, index: u32) -> (r: Bip32PrivateKey)
        requires
            self.wf(),
        ensures
            r.wf(),
            scalar_marked(xprv_derive_of(self.xprv@, index)) ==> r.xprv@ == xprv_derive_of(
                self.xprv@,
                index,
            ),
            !scalar_marked(xprv_derive_of(self.xprv@, index)) ==> r.xprv@
                == crypto::xprv_normalize_of(xprv_derive_of(self.xprv@, index)),
    {
        let derived = crypto::xprv_derive(self.xprv.as_slice(), index);
        if check_scalar_marked(derived.as_slice()) {
            Bip32PrivateKey { xprv: derived }
        } else {
            let normalized = crypto::xprv_normalize_force3rd(derived.as_slice());
            proof {
                lemma_normalized_is_marked(normalized@[31]);
            }
            Bip32PrivateKey { xprv: normalized }
        }
    }

    /// A fresh extended key from the operating system's random source.
    pub fn generate_ed25519_bip32() -> (r: Result<Bip32PrivateKey, CoreError>)
        ensures
            match r {
                Ok(k) => k.wf(),
                Err(e) => e == CoreError::RandomSourceFailed,
            },
    {
        match crypto::random_bytes(96) {
            Ok(raw) => {
                let normalized = crypto::xprv_normalize_force3rd(raw.as_slice());
                proof {
                    lemma_normalized_is_marked(normalized@[31]);
                }
                Ok(Bip32PrivateKey { xprv: normalized })
            },
            Err(_) => Err(CoreError::RandomSourceFailed),
        }
    }

    /// Drop down to the raw extended signing key.
    pub fn to_raw_key(&self) -> (r: PrivateKey)
        requires
            self.wf(),
        ensures
            r matches PrivateKey::Extended(b) && b@ == self.xprv@,
            r.wf(),
    {
        let v = dup_bytes(&self.xprv);
        PrivateKey::Extended(v)
    }

    /// The extended public key: the public point, then the chain code.
    pub fn to_public(&self) -> (r: Bip32PublicKey)
        requires
            self.wf(),
        ensures
            r.wf(),
            r.xpub@ == extended_public_of(self.xprv@.subrange(0, 64)) + self.xprv@.subrange(
                64,
                96,
            ),
    {
        let xsk = copy_range(self.xprv.as_slice(), 0, 64);
        proof {
            lemma_marked_top_byte(self.xprv@[31]);
            assert(xsk@[31] == self.xprv@[31]);
        }
        let mut v = crypto::extended_public(xsk.as_slice());
        let cc = copy_range(self.xprv.as_slice(), 64, 32);
        push_bytes(&mut v, cc.as_slice());
        Bip32PublicKey { xpub: v }
    }

    /// Read a key from its raw 96 bytes; the scalar must carry the
    /// extended-key markers.
    pub fn from_bytes(bytes: &[u8]) -> (r: Result<Bip32PrivateKey, CoreError>)
        ensures
            match r {
                Ok(k) => bytes@.len() == 96 && scalar_marked(bytes@) && k.xprv@ == bytes@
                    && k.wf(),
                Err(e) => !(bytes@.len() == 96 && scalar_marked(bytes@)) && e
                    == CoreError::MalformedInput,
            },
    {
        if bytes.len() == 96 && check_scalar_marked(bytes) {
            let n = bytes.len();
            let v = copy_range(bytes, 0, n);
            proof {
                assert(bytes@.subrange(0, n as int) =~= bytes@);
            }
            Ok(Bip32PrivateKey { xprv: v })
        } else {
            Err(CoreError::MalformedInput)
        }
    }

    /// The raw key bytes.
    pub fn as_bytes(&self) -> (r: Vec<u8>)
        ensures
            r@ == self.xprv@,
    {
        dup_bytes(&self.xprv)
    }

    /// Read a key from its bech32 rendering under `xprv`; the scalar
    /// must carry the extended-key markers.
    pub fn from_bech32(bech32_str: &str) -> (r: Result<Bip32PrivateKey, CoreError>)
        ensures
            match r {
                Ok(k) => k.wf() && forall|d: Seq<u8>|
                    d.len() == 96 && bech32_str@ == #[trigger] bech32_str_of("xprv"@, d)
                        ==> k.xprv@ == d,
                Err(_) => forall|d: Seq<u8>|
                    d.len() == 96 && scalar_marked(d) ==> bech32_str@
                        != #[trigger] bech32_str_of("xprv"@, d),
            },
    {
        proof {
            reveal_strlit("xprv");
        }
        let expected = String::from_str("xprv");
        match bech32_decode(bech32_str) {
            Ok((hrp, data)) => {
                if hrp == expected && data.len() == 96 && check_scalar_marked(data.as_slice()) {
                    Ok(Bip32PrivateKey { xprv: data })
                } else {
                    Err(CoreError::InvalidChecksum)
                }
            },
            Err(_) => Err(CoreError::InvalidChecksum),
        }
    }

    /// The bech32 rendering of the key under `xprv`.
    pub fn to_bech32(&self) -> (r: String)
        requires
            self.wf(),
        ensures
            r@ == bech32_str_of("xprv"@, self.xprv@),
    {
        proof {
            reveal_strlit("xprv");
        }
        bech32_encode("xprv", self.xprv.as_slice())
    }

    /// The root extended key expanded from BIP39 entropy and a password:
    /// a PBKDF2-HMAC-SHA512 stretch over 4096 iterations, normalized
    /// into a well-formed extended key.  Deterministic: no randomness.
    pub fn from_bip39_entropy(entropy: &[u8], password: &[u8]) -> (r: Bip32PrivateKey)
        ensures
            r.wf(),
            r.xprv@ == xprv_normalize_of(pbkdf2_sha512_of(password@, entropy@, 4096, 96)),
    {
        let stretched = crypto::pbkdf2_sha512(password, entropy, 4096, 96);
        let normalized = crypto::xprv_normalize_force3rd(stretched.as_slice());
        proof {
            lemma_normalized_is_marked(normalized@[31]);
        }
        Bip32PrivateKey { xprv: normalized }
    }
}

/// An extended public key with its chain code: 64 bytes.
#[derive(Clone, Debug)]
pub struct Bip32PublicKey {
    pub xpub: Vec<u8>,
}

impl Bip32PublicKey {
    /// Is the key well formed: exactly 64 bytes?
    pub open spec fn wf(&self) -> bool {
        self.xpub@.len() == 64
    }

    /// Derive the child key at a soft `index`.  Every hard index, that
    /// is every `index >= 0x80000000`, fails; a soft index succeeds
    /// exactly when the underlying point arithmetic does, a condition
    /// of the key and index alone.  For a key projected from a
    /// normalized extended private key, the derived public key is the
    /// projection of the privately derived child: soft derivation
    /// commutes with projection.
    pub fn derive(&self, index: u32) -> (r: Result<Bip32PublicKey, CoreError>)
        requires
            self.wf(),
        ensures
            match r {
                Ok(k) => {
                    &&& index < spec_hard_index_start()
                    &&& xpub_soft_ok_of(self.xpub@, index)
                    &&& k.wf()
                    &&& k.xpub@ == xpub_derive_of(self.xpub@, index)
                    &&& forall|xprv: Seq<u8>|
                        xprv_root_marked(xprv) && self.xpub@ == xpub_of_xprv(xprv)
                            ==> k.xpub@ == xpub_of_xprv(
                            #[trigger] xprv_derive_of(xprv, index),
                        )
                },
                Err(e) => {
                    ||| index >= spec_hard_index_start() && e
                        == CoreError::HardDerivationOnPublicKey
                    ||| index < spec_hard_index_start() && !xpub_soft_ok_of(self.xpub@, index)
                        && e == CoreError::MalformedInput
                },
            },
    {
        match crypto::xpub_derive(self.xpub.as_slice(), index) {
            Ok(v) => Ok(Bip32PublicKey { xpub: v }),
            Err(e) => Err(e),
        }
    }

    /// Drop down to the raw public key: the first 32 bytes.
    pub fn to_raw_key(&self) -> (r: PublicKey)
        requires
            self.wf(),
        ensures
            r.wf(),
            r.bytes@ == self.xpub@.subrange(0, 32),
    {
        PublicKey { bytes: copy_range(self.xpub.as_slice(), 0, 32) }
    }

    /// Read a key from its raw 64 bytes.
    pub fn from_bytes(bytes: &[u8]) -> (r: Result<Bip32PublicKey, CoreError>)
        ensures
            match r {
                Ok(k) => bytes@.len() == 64 && k.xpub@ == bytes@,
                Err(e) => bytes@.len() != 64 && e == CoreError::MalformedInput,
            },
    {
        if bytes.len() == 64 {
            let n = bytes.len();
            let v = copy_range(bytes, 0, n);
            proof {
                assert(bytes@.subrange(0, n as int) =~= bytes@);
            }
            Ok(Bip32PublicKey { xpub: v })
        } else {
            Err(CoreError::MalformedInput)
        }
    }

    /// The raw key bytes.
    pub fn as_bytes(&self) -> (r: Vec<u8>)
        ensures
            r@ == self.xpub@,
    {
        dup_bytes(&self.xpub)
    }

    /// Read a key from its bech32 rendering under `xpub`.
    pub fn from_bech32(bech32_str: &str) -> (r: Result<Bip32PublicKey, CoreError>)
        ensures
            match r {
                Ok(k) => k.wf() && forall|d: Seq<u8>|
                    d.len() == 64 && bech32_str@ == #[trigger] bech32_str_of("xpub"@, d)
                        ==> k.xpub@ == d,
                Err(_) => forall|d: Seq<u8>|
                    d.len() == 64 ==> bech32_str@ != #[trigger] bech32_str_of("xpub"@, d),
            },
    {
        proof {
            reveal_strlit("xpub");
        }
        let expected = String::from_str("xpub");
        match bech32_decode(bech32_str) {
            Ok((hrp, data)) => {
                if hrp == expected && data.len() == 64 {
                    Ok(Bip32PublicKey { xpub: data })
                } else {
                    Err(CoreError::InvalidChecksum)
                }
            },
            Err(_) => Err(CoreError::InvalidChecksum),
        }
    }

    /// The bech32 rendering of the key under `xpub`.
    pub fn to_bech32(&self) -> (r: String)
        requires
            self.wf(),
        ensures
            r@ == bech32_str_of("xpub"@, self.xpub@),
    {
        proof {
            reveal_strlit("xpub");
        }
        bech32_encode("xpub", self.xpub.as_slice())
    }
}

/// A legacy Daedalus extended private key: 96 bytes in the legacy layout.
#[derive(Clone, Debug)]
pub struct LegacyDaedalusPrivateKey {
    pub bytes: Vec<u8>,
}

impl LegacyDaedalusPrivateKey {
    /// Is the key well formed: exactly 96 bytes, with the scalar
    /// carrying the extended-key markers?
    pub open spec fn wf(&self) -> bool {
        self.bytes@.len() == 96 && scalar_marked(self.bytes@)
    }

    /// Read a key from its raw 96 bytes; the scalar must carry the
    /// extended-key markers.
    pub fn from_bytes(bytes: &[u8]) -> (r: Result<LegacyDaedalusPrivateKey, CoreError>)
        ensures
            match r {
                Ok(k) => bytes@.len() == 96 && scalar_marked(bytes@) && k.bytes@ == bytes@
                    && k.wf(),
                Err(e) => !(bytes@.len() == 96 && scalar_marked(bytes@)) && e
                    == CoreError::MalformedInput,
            },
    {
        if bytes.len() == 96 && check_scalar_marked(bytes) {
            let n = bytes.len();
            let v = copy_range(bytes, 0, n);
            proof {
                assert(bytes@.subrange(0, n as int) =~= bytes@);
            }
            Ok(LegacyDaedalusPrivateKey { bytes: v })
        } else {
            Err(CoreError::MalformedInput)
        }
    }

    /// The raw key bytes.
    pub fn as_bytes(&self) -> (r: Vec<u8>)
        ensures
            r@ == self.bytes@,
    {
        dup_bytes(&self.bytes)
    }
}

/// The public key of a key-evolving-signature scheme leader: 32 bytes.
#[derive(Clone, Debug)]
pub struct KesPublicKey {
    pub bytes: Vec<u8>,
}

impl KesPublicKey {
    /// Is the key well formed: exactly 32 bytes?
    pub open spec fn wf(&self) -> bool {
        self.bytes@.len() == 32
    }

    /// Read a key from its bech32 rendering under `kes25519-12-pk`.
    pub fn from_bech32(bech32_str: &str) -> (r: Result<KesPublicKey, CoreError>)
        ensures
            match r {
                Ok(k) => k.wf() && forall|d: Seq<u8>|
                    d.len() == 32 && bech32_str@ == #[trigger] bech32_str_of(
                        "kes25519-12-pk"@,
                        d,
                    ) ==> k.bytes@ == d,
                Err(_) => forall|d: Seq<u8>|
                    d.len() == 32 ==> bech32_str@ != #[trigger] bech32_str_of(
                        "kes25519-12-pk"@,
                        d,
                    ),
            },
    {
        proof {
            reveal_strlit("kes25519-12-pk");
        }
        let expected = String::from_str("kes25519-12-pk");
        match bech32_decode(bech32_str) {
            Ok((hrp, data)) => {
                if hrp == expected && data.len() == 32 {
                    Ok(KesPublicKey { bytes: data })
                } else {
                    Err(CoreError::InvalidChecksum)
                }
            },
            Err(_) => Err(CoreError::InvalidChecksum),
        }
    }

    /// The raw key bytes.
    pub fn as_bytes(&self) -> (r: Vec<u8>)
        ensures
            r@ == self.bytes@,
    {
        dup_bytes(&self.bytes)
    }
}

/// The public key of a verifiable-random-function leader: 32 bytes.
#[derive(Clone, Debug)]
pub struct VrfPublicKey {
    pub bytes: Vec<u8>,
}

impl VrfPublicKey {
    /// Is the key well formed: exactly 32 bytes?
    pub open spec fn wf(&self) -> bool {
        self.bytes@.len() == 32
    }

    /// Read a key from its bech32 rendering under `vrf_pk`.
    pub fn from_bech32(bech32_str: &str) -> (r: Result<VrfPublicKey, CoreError>)
        ensures
            match r {
                Ok(k) => k.wf() && forall|d: Seq<u8>|
                    d.len() == 32 && bech32_str@ == #[trigger] bech32_str_of("vrf_pk"@, d)
                        ==> k.bytes@ == d,
                Err(_) => forall|d: Seq<u8>|
                    d.len() == 32 ==> bech32_str@ != #[trigger] bech32_str_of("vrf_pk"@, d),
            },
    {
        proof {
            reveal_strlit("vrf_pk");
        }
        let expected = String::from_str("vrf_pk");
        match bech32_decode(bech32_str) {
            Ok((hrp, data)) => {
                if hrp == expected && data.len() == 32 {
                    Ok(VrfPublicKey { bytes: data })
                } else {
                    Err(CoreError::InvalidChecksum)
                }
            },
            Err(_) => Err(CoreError::InvalidChecksum),
        }
    }

    /// The raw key bytes.
    pub fn as_bytes(&self) -> (r: Vec<u8>)
        ensures
            r@ == self.bytes@,
    {
        dup_bytes(&self.bytes)
    }
}

} // verus!

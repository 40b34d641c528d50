//! Fixed 32-byte content digests, the per-account spending counter and
//! time offsets.
//!
//! The digest kinds are distinct nominal types over the same byte layout
//! so that digests of different domains cannot be mixed.

use vstd::prelude::*;

use crate::bytes::copy_range;
use crate::codec::hex_decode;
use crate::codec::hex_encode;
use crate::codec::hex_of;
use crate::crypto::blake2b256_of;
use crate::crypto::blake2b_256;
use crate::error::CoreError;
use crate::value::dec_digits_of;
use crate::value::dec_val;
use crate::value::is_dec_seq;
use crate::value::parse_dec;
use crate::value::push_dec_u64;

verus! {

/// Decode a hex string that must denote exactly 32 bytes.
fn hex_to_32(s: &str) -> (r: Result<Vec<u8>, CoreError>)
    ensures
        match r {
            Ok(v) => v@.len() == 32 && forall|bs: Seq<u8>| s@ == hex_of(bs) ==> v@ == bs,
            Err(_) => forall|bs: Seq<u8>| bs.len() == 32 ==> s@ != #[trigger] hex_of(bs),
        },
{
    match hex_decode(s) {
        Ok(v) => {
            if v.len() == 32 {
                Ok(v)
            } else {
                proof {
                    assert forall|bs: Seq<u8>| bs.len() == 32 implies s@ != #[trigger] hex_of(
                        bs,
                    ) by {
                        if s@ == hex_of(bs) {
                            assert(v@ == bs);
                        }
                    }
                }
                Err(CoreError::MalformedInput)
            }
        },
        Err(_) => Err(CoreError::InvalidEncoding),
    }
}

/// A generic 32-byte Blake2b-256 content digest.
#[derive(Clone, Debug)]
pub struct Hash {
    pub bytes: Vec<u8>,
}

impl Hash {
    /// Is the digest well formed: exactly 32 bytes?
    pub open spec fn wf(&self) -> bool {
        self.bytes@.len() == 32
    }

    /// The Blake2b-256 digest of the input.
    pub fn calculate(bytes: &[u8]) -> (r: Hash)
        ensures
            r.bytes@ == blake2b256_of(bytes@),
            r.wf(),
    {
        Hash { bytes: blake2b_256(bytes) }
    }

    /// Read a digest from its 64-character hex rendering.
    pub fn from_hex(hex_string: &str) -> (r: Result<Hash, CoreError>)
        ensures
            match r {
                Ok(h) => h.wf() && forall|bs: Seq<u8>|
                    hex_string@ == hex_of(bs) ==> h.bytes@ == bs,
                Err(_) => forall|bs: Seq<u8>|
                    bs.len() == 32 ==> hex_string@ != #[trigger] hex_of(bs),
            },
    {
        match hex_to_32(hex_string) {
            Ok(v) => Ok(Hash { bytes: v }),
            Err(e) => Err(e),
        }
    }

    /// The raw digest bytes.
    pub fn as_bytes(&self) -> (r: Vec<u8>)
        ensures
            r@ == self.bytes@,
    {
        let n = self.bytes.len();
        let r = copy_range(self.bytes.as_slice(), 0, n);
        proof {
            assert(self.bytes@.subrange(0, n as int) =~= self.bytes@);
        }
        r
    }
}

/// The content-addressed identifier of a fragment.
#[derive(Clone, Debug)]
pub struct FragmentId {
    pub bytes: Vec<u8>,
}

impl FragmentId {
    /// Is the identifier well formed: exactly 32 bytes?
    pub open spec fn wf(&self) -> bool {
        self.bytes@.len() == 32
    }

    /// The Blake2b-256 digest of the input.
    pub fn calculate(bytes: &[u8]) -> (r: FragmentId)
        ensures
            r.bytes@ == blake2b256_of(bytes@),
            r.wf(),
    {
        FragmentId { bytes: blake2b_256(bytes) }
    }

    /// Read an identifier from its raw 32 bytes.
    pub fn from_bytes(bytes: &[u8]) -> (r: Result<FragmentId, CoreError>)
        ensures
            match r {
                Ok(h) => bytes@.len() == 32 && h.bytes@ == bytes@,
                Err(e) => bytes@.len() != 32 && e == CoreError::MalformedInput,
            },
    {
        if bytes.len() == 32 {
            let n = bytes.len();
            let v = copy_range(bytes, 0, n);
            proof {
                assert(bytes@.subrange(0, n as int) =~= bytes@);
            }
            Ok(FragmentId { bytes: v })
        } else {
            Err(CoreError::MalformedInput)
        }
    }

    /// The raw identifier bytes.
    pub fn as_bytes(&self) -> (r: Vec<u8>)
        ensures
            r@ == self.bytes@,
    {
        let n = self.bytes.len();
        let r = copy_range(self.bytes.as_slice(), 0, n);
        proof {
            assert(self.bytes@.subrange(0, n as int) =~= self.bytes@);
        }
        r
    }
}

/// The content-addressed identifier of a block.
#[derive(Clone, Debug)]
pub struct BlockId {
    pub bytes: Vec<u8>,
}

impl BlockId {
    /// Is the identifier well formed: exactly 32 bytes?
    pub open spec fn wf(&self) -> bool {
        self.bytes@.len() == 32
    }

    /// The Blake2b-256 digest of the input, as a generic digest.
    pub fn calculate(bytes: &[u8]) -> (r: Hash)
        ensures
            r.bytes@ == blake2b256_of(bytes@),
            r.wf(),
    {
        Hash::calculate(bytes)
    }

    /// Read an identifier from its raw 32 bytes.
    pub fn from_bytes(bytes: &[u8]) -> (r: Result<BlockId, CoreError>)
        ensures
            match r {
                Ok(h) => bytes@.len() == 32 && h.bytes@ == bytes@,
                Err(e) => bytes@.len() != 32 && e == CoreError::MalformedInput,
            },
    {
        if bytes.len() == 32 {
            let n = bytes.len();
            let v = copy_range(bytes, 0, n);
            proof {
                assert(bytes@.subrange(0, n as int) =~= bytes@);
            }
            Ok(BlockId { bytes: v })
        } else {
            Err(CoreError::MalformedInput)
        }
    }

    /// The raw identifier bytes.
    pub fn as_bytes(&self) -> (r: Vec<u8>)
        ensures
            r@ == self.bytes@,
    {
        let n = self.bytes.len();
        let r = copy_range(self.bytes.as_slice(), 0, n);
        proof {
            assert(self.bytes@.subrange(0, n as int) =~= self.bytes@);
        }
        r
    }
}

/// The digest of a transaction's signed payload: what every witness signs.
#[derive(Clone, Debug)]
pub struct TransactionSignDataHash {
    pub bytes: Vec<u8>,
}

impl TransactionSignDataHash {
    /// Is the digest well formed: exactly 32 bytes?
    pub open spec fn wf(&self) -> bool {
        self.bytes@.len() == 32
    }

    /// Read a digest from its raw 32 bytes.
    pub fn from_bytes(bytes: &[u8]) -> (r: Result<TransactionSignDataHash, CoreError>)
        ensures
            match r {
                Ok(h) => bytes@.len() == 32 && h.bytes@ == bytes@,
                Err(e) => bytes@.len() != 32 && e == CoreError::MalformedInput,
            },
    {
        if bytes.len() == 32 {
            let n = bytes.len();
            let v = copy_range(bytes, 0, n);
            proof {
                assert(bytes@.subrange(0, n as int) =~= bytes@);
            }
            Ok(TransactionSignDataHash { bytes: v })
        } else {
            Err(CoreError::MalformedInput)
        }
    }

    /// Read a digest from its 64-character hex rendering.
    pub fn from_hex(input: &str) -> (r: Result<TransactionSignDataHash, CoreError>)
        ensures
            match r {
                Ok(h) => h.wf() && forall|bs: Seq<u8>| input@ == hex_of(bs) ==> h.bytes@ == bs,
                Err(_) => forall|bs: Seq<u8>|
                    bs.len() == 32 ==> input@ != #[trigger] hex_of(bs),
            },
    {
        match hex_to_32(input) {
            Ok(v) => Ok(TransactionSignDataHash { bytes: v }),
            Err(e) => Err(e),
        }
    }

    /// The raw digest bytes.
    pub fn as_bytes(&self) -> (r: Vec<u8>)
        ensures
            r@ == self.bytes@,
    {
        let n = self.bytes.len();
        let r = copy_range(self.bytes.as_slice(), 0, n);
        proof {
            assert(self.bytes@.subrange(0, n as int) =~= self.bytes@);
        }
        r
    }
}

/// The stable identifier of a registered stake pool.
#[derive(Clone, Debug)]
pub struct PoolId {
    pub bytes: Vec<u8>,
}

impl PoolId {
    /// Is the identifier well formed: exactly 32 bytes?
    pub open spec fn wf(&self) -> bool {
        self.bytes@.len() == 32
    }

    /// Read an identifier from its 64-character hex rendering.
    pub fn from_hex(hex_string: &str) -> (r: Result<PoolId, CoreError>)
        ensures
            match r {
                Ok(h) => h.wf() && forall|bs: Seq<u8>|
                    hex_string@ == hex_of(bs) ==> h.bytes@ == bs,
                Err(_) => forall|bs: Seq<u8>|
                    bs.len() == 32 ==> hex_string@ != #[trigger] hex_of(bs),
            },
    {
        match hex_to_32(hex_string) {
            Ok(v) => Ok(PoolId { bytes: v }),
            Err(e) => Err(e),
        }
    }

    /// The lowercase hex rendering of the identifier.
    pub fn to_string(&self) -> (r: String)
        ensures
            r@ == hex_of(self.bytes@),
    {
        hex_encode(self.bytes.as_slice())
    }

    /// The raw identifier bytes.
    pub fn as_bytes(&self) -> (r: Vec<u8>)
        ensures
            r@ == self.bytes@,
    {
        let n = self.bytes.len();
        let r = copy_range(self.bytes.as_slice(), 0, n);
        proof {
            assert(self.bytes@.subrange(0, n as int) =~= self.bytes@);
        }
        r
    }
}

/// The digest of a genesis-praos leader's key pair.
#[derive(Clone, Debug)]
pub struct GenesisPraosLeaderHash {
    pub bytes: Vec<u8>,
}

impl GenesisPraosLeaderHash {
    /// Is the digest well formed: exactly 32 bytes?
    pub open spec fn wf(&self) -> bool {
        self.bytes@.len() == 32
    }

    /// Read a digest from its 64-character hex rendering.
    pub fn from_hex(hex_string: &str) -> (r: Result<GenesisPraosLeaderHash, CoreError>)
        ensures
            match r {
                Ok(h) => h.wf() && forall|bs: Seq<u8>|
                    hex_string@ == hex_of(bs) ==> h.bytes@ == bs,
                Err(_) => forall|bs: Seq<u8>|
                    bs.len() == 32 ==> hex_string@ != #[trigger] hex_of(bs),
            },
    {
        match hex_to_32(hex_string) {
            Ok(v) => Ok(GenesisPraosLeaderHash { bytes: v }),
            Err(e) => Err(e),
        }
    }

    /// The lowercase hex rendering of the digest.
    pub fn to_string(&self) -> (r: String)
        ensures
            r@ == hex_of(self.bytes@),
    {
        hex_encode(self.bytes.as_slice())
    }

    /// The raw digest bytes.
    pub fn as_bytes(&self) -> (r: Vec<u8>)
        ensures
            r@ == self.bytes@,
    {
        let n = self.bytes.len();
        let r = copy_range(self.bytes.as_slice(), 0, n);
        proof {
            assert(self.bytes@.subrange(0, n as int) =~= self.bytes@);
        }
        r
    }
}

/// The replay-prevention nonce of an account: it must match the ledger's
/// stored counter when the account spends.
#[derive(Clone, Copy, Debug, PartialEq, Eq, Structural)]
pub struct SpendingCounter {
    pub counter: u32,
}

impl SpendingCounter {
    /// The counter of a fresh account.
    pub fn zero() -> (r: SpendingCounter)
        ensures
            r.counter == 0,
    {
        SpendingCounter { counter: 0 }
    }

    /// The counter with the given value.
    pub fn from_u32(counter: u32) -> (r: SpendingCounter)
        ensures
            r.counter == counter,
    {
        SpendingCounter { counter }
    }
}

/// A time offset in seconds from the start of the timeline.
#[derive(Clone, Copy, Debug, PartialEq, Eq, Structural)]
pub struct TimeOffsetSeconds {
    pub seconds: u64,
}

impl TimeOffsetSeconds {
    /// Parse a canonical decimal string into an offset.
    pub fn from_string(number: &str) -> (r: Result<TimeOffsetSeconds, CoreError>)
        ensures
            match r {
                Ok(v) => is_dec_seq(number@) && dec_val(number@) == v.seconds,
                Err(e) => {
                    &&& !(is_dec_seq(number@) && dec_val(number@) <= u64::MAX)
                    &&& (e == CoreError::InvalidEncoding || e == CoreError::ArithmeticError)
                },
            },
    {
        match parse_dec(number, u64::MAX as u128) {
            Ok(v) => Ok(TimeOffsetSeconds { seconds: v as u64 }),
            Err(e) => Err(e),
        }
    }

    /// The canonical decimal rendering of the offset.
    pub fn to_string(&self) -> (r: String)
        ensures
            r@ =~= dec_digits_of(self.seconds as nat),
    {
        let mut s = String::new();
        push_dec_u64(&mut s, self.seconds);
        s
    }
}

} // verus!

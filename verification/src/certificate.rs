//! Certificates: stake delegation, pool registration, retirement and
//! update, each with a canonical byte encoding that round-trips exactly.

use vstd::prelude::*;

use crate::account::Account;
use crate::account::AccountIdentifier;
use crate::account::AccountV;
use crate::account::DelegationType;
use crate::account::DelegationTypeV;
use crate::account::DelegationRatio;
use crate::account::PoolDelegationRatio;
use crate::account::PoolShareV;
use crate::account::shares_of;
use crate::account::shares_sum;
use crate::account::sum_shares;
use crate::bytes::be_bytes;
use crate::bytes::be_val;
use crate::bytes::copy_range;
use crate::bytes::lemma_be_bytes_len;
use crate::bytes::lemma_be_round_trip;
use crate::bytes::lemma_pow256_16;
use crate::bytes::lemma_pow256_mono;
use crate::bytes::push_be;
use crate::bytes::push_bytes;
use crate::bytes::read_be;
use crate::crypto::blake2b256_of;
use crate::crypto::blake2b_256;
use crate::error::CoreError;
use crate::keys::KesPublicKey;
use crate::keys::PublicKey;
use crate::keys::PublicKeys;
use crate::keys::VrfPublicKey;
use crate::keys::dup_bytes;
use crate::primitives::GenesisPraosLeaderHash;
use crate::primitives::PoolId;
use crate::primitives::TimeOffsetSeconds;
use crate::value::Value;

verus! {

/// The key pair of a genesis-praos leader.
#[derive(Clone, Debug)]
pub struct GenesisPraosLeader {
    pub vrf_public_key: VrfPublicKey,
    pub kes_public_key: KesPublicKey,
}

/// The mathematical model of a leader's key pair.
pub ghost struct LeaderV {
    pub vrf: Seq<u8>,
    pub kes: Seq<u8>,
}

impl View for GenesisPraosLeader {
    type V = LeaderV;

    open spec fn view(&self) -> LeaderV {
        LeaderV { vrf: self.vrf_public_key.bytes@, kes: self.kes_public_key.bytes@ }
    }
}

/// The canonical bytes of a leader's key pair.
pub open spec fn leader_bytes(l: LeaderV) -> Seq<u8> {
    l.vrf + l.kes
}

/// Is the leader model well formed: two 32-byte keys?
pub open spec fn wf_leader(l: LeaderV) -> bool {
    l.vrf.len() == 32 && l.kes.len() == 32
}

impl GenesisPraosLeader {
    /// Is the pair well formed?
    pub open spec fn wf(&self) -> bool {
        wf_leader(self@)
    }

    /// The pair of the given keys.
    pub fn new(kes_public_key: &KesPublicKey, vrf_public_key: &VrfPublicKey) -> (r:
        GenesisPraosLeader)
        ensures
            r@.vrf == vrf_public_key.bytes@,
            r@.kes == kes_public_key.bytes@,
            kes_public_key.wf() && vrf_public_key.wf() ==> r.wf(),
    {
        GenesisPraosLeader {
            vrf_public_key: VrfPublicKey { bytes: dup_bytes(&vrf_public_key.bytes) },
            kes_public_key: KesPublicKey { bytes: dup_bytes(&kes_public_key.bytes) },
        }
    }
}

/// The tax taken from pool rewards: a fixed cut, a ratio of what is
/// left, and an optional upper limit.  An absent limit is encoded as
/// zero, so zero and absent coincide on the wire.
#[derive(Clone, Debug)]
pub struct TaxType {
    pub fixed: u64,
    pub ratio_numerator: u64,
    pub ratio_denominator: u64,
    pub max_limit: Option<u64>,
}

/// The mathematical model of a reward tax.
pub ghost struct TaxTypeV {
    pub fixed: u64,
    pub num: u64,
    pub den: u64,
    pub max: Option<u64>,
}

impl View for TaxType {
    type V = TaxTypeV;

    open spec fn view(&self) -> TaxTypeV {
        TaxTypeV {
            fixed: self.fixed,
            num: self.ratio_numerator,
            den: self.ratio_denominator,
            max: self.max_limit,
        }
    }
}

/// Is the tax model well formed: a non-zero denominator and, where a
/// limit is present, a non-zero limit?
pub open spec fn wf_tax(t: TaxTypeV) -> bool {
    &&& t.den >= 1
    &&& match t.max {
        Some(x) => x >= 1,
        None => true,
    }
}

/// The canonical bytes of a reward tax: four 8-byte numbers, with zero
/// standing for an absent limit.
pub open spec fn tax_bytes(t: TaxTypeV) -> Seq<u8> {
    be_bytes(t.fixed as int, 8) + be_bytes(t.num as int, 8) + be_bytes(t.den as int, 8)
        + be_bytes(
        match t.max {
            Some(x) => x as int,
            None => 0,
        },
        8,
    )
}

impl TaxType {
    /// Is the tax well formed?
    pub open spec fn wf(&self) -> bool {
        wf_tax(self@)
    }

    /// The zero tax: nothing fixed, a zero ratio, no limit.
    pub fn zero() -> (r: TaxType)
        ensures
            r@ == (TaxTypeV { fixed: 0u64, num: 0u64, den: 1u64, max: None::<u64> }),
            r.wf(),
    {
        TaxType { fixed: 0, ratio_numerator: 0, ratio_denominator: 1, max_limit: None }
    }

    /// The fixed cut.
    pub fn fixed(&self) -> (r: Value)
        ensures
            r.amount == self.fixed,
    {
        Value { amount: self.fixed }
    }

    /// The numerator of the ratio.
    pub fn ratio_numerator(&self) -> (r: Value)
        ensures
            r.amount == self.ratio_numerator,
    {
        Value { amount: self.ratio_numerator }
    }

    /// The denominator of the ratio.
    pub fn ratio_denominator(&self) -> (r: Value)
        ensures
            r.amount == self.ratio_denominator,
    {
        Value { amount: self.ratio_denominator }
    }

    /// The upper limit, where one is set.
    pub fn max_limit(&self) -> (r: Option<Value>)
        ensures
            match self.max_limit {
                Some(x) => r matches Some(v) && v.amount == x,
                None => r is None,
            },
    {
        match self.max_limit {
            Some(x) => Some(Value { amount: x }),
            None => None,
        }
    }
}

/// The canonical bytes of one pool share: the pool id, then its part.
pub open spec fn share_bytes(s: PoolShareV) -> Seq<u8> {
    s.pool + seq![s.part]
}

/// The canonical bytes of a share list, in order.
pub open spec fn shares_bytes(s: Seq<PoolShareV>) -> Seq<u8>
    decreases s.len(),
{
    if s.len() == 0 {
        Seq::empty()
    } else {
        shares_bytes(s.drop_last()) + share_bytes(s.last())
    }
}

/// Are all pools in the share list 32-byte identifiers?
pub open spec fn wf_shares(s: Seq<PoolShareV>) -> bool {
    forall|i: int| 0 <= i < s.len() ==> (#[trigger] s[i]).pool.len() == 32
}

/// A well-formed share list encodes to 33 bytes per share.
pub proof fn lemma_shares_bytes_len(s: Seq<PoolShareV>)
    requires
        wf_shares(s),
    ensures
        shares_bytes(s).len() == 33 * s.len(),
    decreases s.len(),
{
    if s.len() > 0 {
        lemma_shares_bytes_len(s.drop_last());
    }
}

/// Each share sits at its own 33-byte slot of the encoding.
pub proof fn lemma_shares_bytes_index(s: Seq<PoolShareV>, i: int)
    requires
        wf_shares(s),
        0 <= i < s.len(),
    ensures
        shares_bytes(s).subrange(33 * i, 33 * i + 32) == s[i].pool,
        shares_bytes(s)[33 * i + 32] == s[i].part,
    decreases s.len(),
{
    lemma_shares_bytes_len(s);
    if i == s.len() - 1 {
        lemma_shares_bytes_len(s.drop_last());
        assert(shares_bytes(s).subrange(33 * i, 33 * i + 32) =~= s[i].pool);
    } else {
        lemma_shares_bytes_index(s.drop_last(), i);
        lemma_shares_bytes_len(s.drop_last());
        assert(shares_bytes(s).subrange(33 * i, 33 * i + 32) =~= shares_bytes(
            s.drop_last(),
        ).subrange(33 * i, 33 * i + 32));
    }
}

/// The canonical bytes of a delegation choice.
pub open spec fn dlg_bytes(d: DelegationTypeV) -> Seq<u8> {
    match d {
        DelegationTypeV::NonDelegated => seq![0u8],
        DelegationTypeV::Full(p) => seq![1u8] + p,
        DelegationTypeV::Ratio(parts, shares) => seq![2u8, parts, shares.len() as u8]
            + shares_bytes(shares),
    }
}

/// Is the delegation model well formed?
pub open spec fn wf_dlg(d: DelegationTypeV) -> bool {
    match d {
        DelegationTypeV::NonDelegated => true,
        DelegationTypeV::Full(p) => p.len() == 32,
        DelegationTypeV::Ratio(parts, shares) => {
            &&& 2 <= shares.len() <= 255
            &&& shares_sum(shares) == parts
            &&& wf_shares(shares)
        },
    }
}

/// The delegation choice denoted by `s`, if `s` is exactly one
/// well-formed encoding.
pub open spec fn spec_dlg_decode(s: Seq<u8>) -> Option<DelegationTypeV> {
    if s.len() < 1 {
        None
    } else if s[0] == 0 && s.len() == 1 {
        Some(DelegationTypeV::NonDelegated)
    } else if s[0] == 1 && s.len() == 33 {
        Some(DelegationTypeV::Full(s.subrange(1, 33)))
    } else if s[0] == 2 && s.len() >= 3 {
        let parts = s[1];
        let n = s[2] as int;
        if 2 <= n && s.len() == 3 + 33 * n {
            let shares = Seq::new(
                n as nat,
                |i: int|
                    PoolShareV {
                        pool: s.subrange(3 + 33 * i, 3 + 33 * i + 32),
                        part: s[3 + 33 * i + 32],
                    },
            );
            if shares_sum(shares) == parts {
                Some(DelegationTypeV::Ratio(parts, shares))
            } else {
                None
            }
        } else {
            None
        }
    } else {
        None
    }
}

/// Decoding inverts encoding for every well-formed delegation choice.
pub proof fn lemma_dlg_round_trip(d: DelegationTypeV)
    requires
        wf_dlg(d),
    ensures
        spec_dlg_decode(dlg_bytes(d)) == Some(d),
{
    let s = dlg_bytes(d);
    match d {
        DelegationTypeV::NonDelegated => {},
        DelegationTypeV::Full(p) => {
            assert(s.subrange(1, 33) =~= p);
        },
        DelegationTypeV::Ratio(parts, shares) => {
            lemma_shares_bytes_len(shares);
            let n = shares.len() as int;
            assert(s.len() == 3 + 33 * n);
            let parsed = Seq::new(
                n as nat,
                |i: int|
                    PoolShareV {
                        pool: s.subrange(3 + 33 * i, 3 + 33 * i + 32),
                        part: s[3 + 33 * i + 32],
                    },
            );
            assert forall|i: int| 0 <= i < n implies parsed[i] == shares[i] by {
                lemma_shares_bytes_index(shares, i);
                assert(s.subrange(3 + 33 * i, 3 + 33 * i + 32) =~= shares_bytes(
                    shares,
                ).subrange(33 * i, 33 * i + 32));
                assert(s[3 + 33 * i + 32] == shares_bytes(shares)[33 * i + 32]);
            }
            assert(parsed =~= shares);
        },
    }
}

/// A share list read slot by slot from a region re-encodes to exactly
/// that region.
proof fn lemma_shares_region(s: Seq<u8>, off: int, n: int)
    requires
        0 <= n,
        0 <= off,
        off + 33 * n <= s.len(),
    ensures
        shares_bytes(
            Seq::new(
                n as nat,
                |i: int|
                    PoolShareV {
                        pool: s.subrange(off + 33 * i, off + 33 * i + 32),
                        part: s[off + 33 * i + 32],
                    },
            ),
        ) == s.subrange(off, off + 33 * n),
    decreases n,
{
    let shares = Seq::new(
        n as nat,
        |i: int|
            PoolShareV {
                pool: s.subrange(off + 33 * i, off + 33 * i + 32),
                part: s[off + 33 * i + 32],
            },
    );
    if n == 0 {
        assert(shares_bytes(shares) =~= s.subrange(off, off));
    } else {
        lemma_shares_region(s, off, n - 1);
        assert(shares.drop_last() =~= Seq::new(
            (n - 1) as nat,
            |i: int|
                PoolShareV {
                    pool: s.subrange(off + 33 * i, off + 33 * i + 32),
                    part: s[off + 33 * i + 32],
                },
        ));
        assert(shares_bytes(shares) =~= s.subrange(off, off + 33 * n));
    }
}

/// Encoding inverts decoding: every byte string that decodes is the
/// encoding of the delegation choice it decodes to, and that choice is
/// well formed.  With the round trip above, the codec is a bijection.
pub proof fn lemma_dlg_decode_inverts(s: Seq<u8>)
    ensures
        match spec_dlg_decode(s) {
            Some(d) => dlg_bytes(d) == s && wf_dlg(d),
            None => true,
        },
{
    match spec_dlg_decode(s) {
        Some(d) => {
            match d {
                DelegationTypeV::NonDelegated => {
                    assert(dlg_bytes(d) =~= s);
                },
                DelegationTypeV::Full(_) => {
                    assert(dlg_bytes(d) =~= s);
                },
                DelegationTypeV::Ratio(parts, shares) => {
                    let n = s[2] as int;
                    lemma_shares_region(s, 3, n);
                    assert(s.subrange(3, 3 + 33 * n) =~= s.skip(3));
                    assert(dlg_bytes(d) =~= s);
                },
            }
        },
        None => {},
    }
}

/// Append the canonical bytes of a delegation choice to `v`.
fn push_dlg(v: &mut Vec<u8>, d: &DelegationType)
    ensures
        final(v)@ =~= old(v)@ + dlg_bytes(d@),
{
    match d {
        DelegationType::NonDelegated => {
            v.push(0);
        },
        DelegationType::Full(p) => {
            v.push(1);
            push_bytes(v, p.bytes.as_slice());
        },
        DelegationType::Ratio(r) => {
            v.push(2);
            v.push(r.parts);
            let n = r.pools.len();
            v.push(n as u8);
            let mut i: usize = 0;
            while i < n
                invariant
                    0 <= i <= n,
                    n == r.pools@.len(),
                    v@ =~= old(v)@ + seq![2u8, r.parts, n as u8] + shares_bytes(
                        shares_of(r.pools@).subrange(0, i as int),
                    ),
                decreases n - i,
            {
                proof {
                    assert(shares_of(r.pools@).subrange(0, i + 1).drop_last() =~= shares_of(
                        r.pools@,
                    ).subrange(0, i as int));
                }
                push_bytes(v, r.pools[i].pool.bytes.as_slice());
                v.push(r.pools[i].part);
                proof {
                    assert(v@ =~= old(v)@ + seq![2u8, r.parts, n as u8] + shares_bytes(
                        shares_of(r.pools@).subrange(0, i + 1),
                    ));
                }
                i = i + 1;
            }
            proof {
                assert(shares_of(r.pools@).subrange(0, n as int) =~= shares_of(r.pools@));
            }
        },
    }
}

/// Read a delegation choice occupying the whole of `b`.
fn dlg_from_bytes(b: &[u8]) -> (r: Result<DelegationType, CoreError>)
    ensures
        match r {
            Ok(d) => spec_dlg_decode(b@) == Some(d@) && d.wf(),
            Err(e) => spec_dlg_decode(b@) is None && e == CoreError::MalformedInput,
        },
{
    if b.len() < 1 {
        return Err(CoreError::MalformedInput);
    }
    let t = b[0];
    if t == 0 && b.len() == 1 {
        Ok(DelegationType::NonDelegated)
    } else if t == 1 && b.len() == 33 {
        let pool = PoolId { bytes: copy_range(b, 1, 32) };
        Ok(DelegationType::Full(pool))
    } else if t == 2 && b.len() >= 3 {
        let parts = b[1];
        let n = b[2] as usize;
        if n < 2 {
            return Err(CoreError::MalformedInput);
        }
        if (b.len() - 3) / 33 != n || (b.len() - 3) % 33 != 0 {
            return Err(CoreError::MalformedInput);
        }
        let ghost parsed = Seq::new(
            n as nat,
            |i: int|
                PoolShareV {
                    pool: b@.subrange(3 + 33 * i, 3 + 33 * i + 32),
                    part: b@[3 + 33 * i + 32],
                },
        );
        let mut pools: Vec<PoolDelegationRatio> = Vec::new();
        let mut i: usize = 0;
        while i < n
            invariant
                0 <= i <= n,
                b@.len() == 3 + 33 * n,
                n <= 255,
                pools@.len() == i,
                parsed == Seq::new(
                    n as nat,
                    |k: int|
                        PoolShareV {
                            pool: b@.subrange(3 + 33 * k, 3 + 33 * k + 32),
                            part: b@[3 + 33 * k + 32],
                        },
                ),
                forall|k: int| 0 <= k < i ==> #[trigger] pools@[k]@ == parsed[k],
                forall|k: int| 0 <= k < i ==> (#[trigger] pools@[k]).pool.wf(),
            decreases n - i,
        {
            let pool = PoolId { bytes: copy_range(b, 3 + 33 * i, 32) };
            let part = b[3 + 33 * i + 32];
            pools.push(PoolDelegationRatio { pool, part });
            i = i + 1;
        }
        proof {
            assert(shares_of(pools@) =~= parsed);
        }
        let total = match sum_shares(&pools) {
            Some(v) => v,
            None => {
                return Err(CoreError::MalformedInput);
            },
        };
        if total != parts as u32 {
            return Err(CoreError::MalformedInput);
        }
        Ok(DelegationType::Ratio(DelegationRatio { parts, pools }))
    } else {
        Err(CoreError::MalformedInput)
    }
}

/// Copy a delegation choice.
fn dup_dlg(d: &DelegationType) -> (r: DelegationType)
    ensures
        r@ == d@,
        d.wf() ==> r.wf(),
{
    match d {
        DelegationType::NonDelegated => DelegationType::non_delegated(),
        DelegationType::Full(p) => DelegationType::Full(PoolId { bytes: dup_bytes(&p.bytes) }),
        DelegationType::Ratio(rat) => DelegationType::ratio(rat),
    }
}

/// The mathematical model of a stake delegation certificate.
pub ghost struct StakeDelegationV {
    pub account: Seq<u8>,
    pub delegation: DelegationTypeV,
}

/// A certificate delegating an account's stake.
#[derive(Clone, Debug)]
pub struct StakeDelegation {
    pub account_id: AccountIdentifier,
    pub delegation: DelegationType,
}

impl View for StakeDelegation {
    type V = StakeDelegationV;

    open spec fn view(&self) -> StakeDelegationV {
        StakeDelegationV { account: self.account_id.bytes@, delegation: self.delegation@ }
    }
}

/// The canonical bytes of a stake delegation certificate.
pub open spec fn stake_dlg_bytes(m: StakeDelegationV) -> Seq<u8> {
    m.account + dlg_bytes(m.delegation)
}

/// Is the model well formed?
pub open spec fn wf_stake_dlg(m: StakeDelegationV) -> bool {
    m.account.len() == 32 && wf_dlg(m.delegation)
}

/// The certificate denoted by `s`, if `s` is exactly one well-formed
/// encoding.
pub open spec fn spec_stake_dlg_decode(s: Seq<u8>) -> Option<StakeDelegationV> {
    if s.len() < 33 {
        None
    } else {
        match spec_dlg_decode(s.subrange(32, s.len() as int)) {
            Some(d) => Some(StakeDelegationV { account: s.subrange(0, 32), delegation: d }),
            None => None,
        }
    }
}

/// Decoding inverts encoding for every well-formed stake delegation.
pub proof fn lemma_stake_dlg_round_trip(m: StakeDelegationV)
    requires
        wf_stake_dlg(m),
    ensures
        spec_stake_dlg_decode(stake_dlg_bytes(m)) == Some(m),
{
    let s = stake_dlg_bytes(m);
    assert(dlg_bytes(m.delegation).len() >= 1);
    assert(s.subrange(0, 32) =~= m.account);
    assert(s.subrange(32, s.len() as int) =~= dlg_bytes(m.delegation));
    lemma_dlg_round_trip(m.delegation);
}

/// Encoding inverts decoding for stake delegation certificates too:
/// with the round trip above, the codec is a bijection.
pub proof fn lemma_stake_dlg_decode_inverts(s: Seq<u8>)
    ensures
        match spec_stake_dlg_decode(s) {
            Some(m) => stake_dlg_bytes(m) == s && wf_stake_dlg(m),
            None => true,
        },
{
    match spec_stake_dlg_decode(s) {
        Some(m) => {
            lemma_dlg_decode_inverts(s.subrange(32, s.len() as int));
            assert(stake_dlg_bytes(m) =~= s);
        },
        None => {},
    }
}

impl StakeDelegation {
    /// Is the certificate well formed?
    pub open spec fn wf(&self) -> bool {
        wf_stake_dlg(self@)
    }

    /// Delegate the stake of the single account of `account` as the
    /// delegation choice says.
    pub fn new(delegation_type: &DelegationType, account: &PublicKey) -> (r: StakeDelegation)
        ensures
            r@.account == account.bytes@,
            r@.delegation == delegation_type@,
            account.wf() && delegation_type.wf() ==> r.wf(),
    {
        StakeDelegation {
            account_id: AccountIdentifier { bytes: dup_bytes(&account.bytes) },
            delegation: dup_dlg(delegation_type),
        }
    }

    /// The delegation choice.
    pub fn delegation_type(&self) -> (r: DelegationType)
        ensures
            r@ == self@.delegation,
    {
        dup_dlg(&self.delegation)
    }

    /// The account whose stake is delegated.
    pub fn account(&self) -> (r: AccountIdentifier)
        ensures
            r.bytes@ == self@.account,
    {
        AccountIdentifier { bytes: dup_bytes(&self.account_id.bytes) }
    }

    /// The canonical byte encoding.
    pub fn as_bytes(&self) -> (r: Vec<u8>)
        requires
            self.wf(),
        ensures
            r@ == stake_dlg_bytes(self@),
    {
        let mut v: Vec<u8> = Vec::new();
        push_bytes(&mut v, self.account_id.bytes.as_slice());
        push_dlg(&mut v, &self.delegation);
        proof {
            assert(v@ =~= stake_dlg_bytes(self@));
        }
        v
    }

    /// Read a certificate from its canonical bytes.
    pub fn from_bytes(bytes: &[u8]) -> (r: Result<StakeDelegation, CoreError>)
        ensures
            match r {
                Ok(c) => spec_stake_dlg_decode(bytes@) == Some(c@) && c.wf(),
                Err(e) => spec_stake_dlg_decode(bytes@) is None && e
                    == CoreError::MalformedInput,
            },
    {
        if bytes.len() < 33 {
            return Err(CoreError::MalformedInput);
        }
        let account = copy_range(bytes, 0, 32);
        let n = bytes.len();
        let rest = copy_range(bytes, 32, n - 32);
        proof {
            assert(rest@ =~= bytes@.subrange(32, bytes@.len() as int));
        }
        match dlg_from_bytes(rest.as_slice()) {
            Ok(d) => Ok(
                StakeDelegation { account_id: AccountIdentifier { bytes: account }, delegation: d },
            ),
            Err(e) => Err(e),
        }
    }
}

/// The mathematical model of an owner stake delegation certificate.
pub ghost struct OwnerStakeDelegationV {
    pub delegation: DelegationTypeV,
}

/// A certificate delegating the stake of a transaction's own inputs.
#[derive(Clone, Debug)]
pub struct OwnerStakeDelegation {
    pub delegation: DelegationType,
}

impl View for OwnerStakeDelegation {
    type V = OwnerStakeDelegationV;

    open spec fn view(&self) -> OwnerStakeDelegationV {
        OwnerStakeDelegationV { delegation: self.delegation@ }
    }
}

/// The canonical bytes of an owner stake delegation certificate.
pub open spec fn owner_dlg_bytes(m: OwnerStakeDelegationV) -> Seq<u8> {
    dlg_bytes(m.delegation)
}

/// Is the model well formed?
pub open spec fn wf_owner_dlg(m: OwnerStakeDelegationV) -> bool {
    wf_dlg(m.delegation)
}

/// The certificate denoted by `s`, if `s` is exactly one well-formed
/// encoding.
pub open spec fn spec_owner_dlg_decode(s: Seq<u8>) -> Option<OwnerStakeDelegationV> {
    match spec_dlg_decode(s) {
        Some(d) => Some(OwnerStakeDelegationV { delegation: d }),
        None => None,
    }
}

/// Decoding inverts encoding for every well-formed owner delegation.
pub proof fn lemma_owner_dlg_round_trip(m: OwnerStakeDelegationV)
    requires
        wf_owner_dlg(m),
    ensures
        spec_owner_dlg_decode(owner_dlg_bytes(m)) == Some(m),
{
    lemma_dlg_round_trip(m.delegation);
}

/// Encoding inverts decoding for owner stake delegations too: with the
/// round trip above, the codec is a bijection.
pub proof fn lemma_owner_dlg_decode_inverts(s: Seq<u8>)
    ensures
        match spec_owner_dlg_decode(s) {
            Some(m) => owner_dlg_bytes(m) == s && wf_owner_dlg(m),
            None => true,
        },
{
    lemma_dlg_decode_inverts(s);
}

impl OwnerStakeDelegation {
    /// Is the certificate well formed?
    pub open spec fn wf(&self) -> bool {
        wf_owner_dlg(self@)
    }

    /// Delegate the owner's stake as the delegation choice says.
    pub fn new(delegation_type: &DelegationType) -> (r: OwnerStakeDelegation)
        ensures
            r@.delegation == delegation_type@,
            delegation_type.wf() ==> r.wf(),
    {
        OwnerStakeDelegation { delegation: dup_dlg(delegation_type) }
    }

    /// The delegation choice.
    pub fn delegation_type(&self) -> (r: DelegationType)
        ensures
            r@ == self@.delegation,
    {
        dup_dlg(&self.delegation)
    }

    /// The canonical byte encoding.
    pub fn as_bytes(&self) -> (r: Vec<u8>)
        requires
            self.wf(),
        ensures
            r@ == owner_dlg_bytes(self@),
    {
        let mut v: Vec<u8> = Vec::new();
        push_dlg(&mut v, &self.delegation);
        proof {
            assert(v@ =~= owner_dlg_bytes(self@));
        }
        v
    }

    /// Read a certificate from its canonical bytes.
    pub fn from_bytes(bytes: &[u8]) -> (r: Result<OwnerStakeDelegation, CoreError>)
        ensures
            match r {
                Ok(c) => spec_owner_dlg_decode(bytes@) == Some(c@) && c.wf(),
                Err(e) => spec_owner_dlg_decode(bytes@) is None && e
                    == CoreError::MalformedInput,
            },
    {
        match dlg_from_bytes(bytes) {
            Ok(d) => Ok(OwnerStakeDelegation { delegation: d }),
            Err(e) => Err(e),
        }
    }
}

/// The mathematical model of a pool retirement certificate.
pub ghost struct PoolRetirementV {
    pub pool: Seq<u8>,
    pub time: u64,
}

/// A certificate retiring a pool at a given time offset.
#[derive(Clone, Debug)]
pub struct PoolRetirement {
    pub pool_id: PoolId,
    pub retirement_time: TimeOffsetSeconds,
}

impl View for PoolRetirement {
    type V = PoolRetirementV;

    open spec fn view(&self) -> PoolRetirementV {
        PoolRetirementV { pool: self.pool_id.bytes@, time: self.retirement_time.seconds }
    }
}

/// The canonical bytes of a pool retirement certificate.
pub open spec fn retirement_bytes(m: PoolRetirementV) -> Seq<u8> {
    m.pool + be_bytes(m.time as int, 8)
}

/// Is the model well formed?
pub open spec fn wf_retirement(m: PoolRetirementV) -> bool {
    m.pool.len() == 32
}

/// The certificate denoted by `s`, if `s` is exactly one encoding.
pub open spec fn spec_retirement_decode(s: Seq<u8>) -> Option<PoolRetirementV> {
    if s.len() == 40 {
        Some(PoolRetirementV { pool: s.subrange(0, 32), time: be_val(s.subrange(32, 40)) as u64 })
    } else {
        None
    }
}

/// Decoding inverts encoding for every well-formed pool retirement.
pub proof fn lemma_retirement_round_trip(m: PoolRetirementV)
    requires
        wf_retirement(m),
    ensures
        spec_retirement_decode(retirement_bytes(m)) == Some(m),
{
    let s = retirement_bytes(m);
    lemma_be_bytes_len(m.time as int, 8);
    assert(s.subrange(0, 32) =~= m.pool);
    assert(s.subrange(32, 40) =~= be_bytes(m.time as int, 8));
    crate::bytes::lemma_pow256_8();
    lemma_be_round_trip(m.time as int, 8);
}

/// Encoding inverts decoding: every 40-byte string is the encoding of
/// the retirement it decodes to.  With the round trip above, the
/// retirement codec is a bijection.
pub proof fn lemma_retirement_decode_inverts(s: Seq<u8>)
    ensures
        match spec_retirement_decode(s) {
            Some(m) => retirement_bytes(m) == s && wf_retirement(m),
            None => true,
        },
{
    match spec_retirement_decode(s) {
        Some(m) => {
            crate::bytes::lemma_be_val_bounds(s.subrange(32, 40));
            crate::bytes::lemma_pow256_8();
            crate::bytes::lemma_be_bytes_of_val(s.subrange(32, 40));
            assert(m.time as int == be_val(s.subrange(32, 40)));
            assert(retirement_bytes(m) =~= s);
        },
        None => {},
    }
}

impl PoolRetirement {
    /// Is the certificate well formed?
    pub open spec fn wf(&self) -> bool {
        wf_retirement(self@)
    }

    /// Retire the given pool at the given time offset.
    pub fn new(pool_id: &PoolId, retirement_time_offset: &TimeOffsetSeconds) -> (r:
        PoolRetirement)
        ensures
            r@.pool == pool_id.bytes@,
            r@.time == retirement_time_offset.seconds,
            pool_id.wf() ==> r.wf(),
    {
        PoolRetirement {
            pool_id: PoolId { bytes: dup_bytes(&pool_id.bytes) },
            retirement_time: TimeOffsetSeconds { seconds: retirement_time_offset.seconds },
        }
    }

    /// The pool being retired.
    pub fn pool_id(&self) -> (r: PoolId)
        ensures
            r.bytes@ == self@.pool,
    {
        PoolId { bytes: dup_bytes(&self.pool_id.bytes) }
    }

    /// When the pool retires.
    pub fn retirement_time(&self) -> (r: TimeOffsetSeconds)
        ensures
            r.seconds == self@.time,
    {
        TimeOffsetSeconds { seconds: self.retirement_time.seconds }
    }

    /// The canonical byte encoding.
    pub fn as_bytes(&self) -> (r: Vec<u8>)
        requires
            self.wf(),
        ensures
            r@ == retirement_bytes(self@),
    {
        let mut v: Vec<u8> = Vec::new();
        push_bytes(&mut v, self.pool_id.bytes.as_slice());
        push_be(&mut v, self.retirement_time.seconds as u128, 8);
        proof {
            assert(v@ =~= retirement_bytes(self@));
        }
        v
    }

    /// Read a certificate from its canonical bytes.
    pub fn from_bytes(bytes: &[u8]) -> (r: Result<PoolRetirement, CoreError>)
        ensures
            match r {
                Ok(c) => spec_retirement_decode(bytes@) == Some(c@) && c.wf(),
                Err(e) => spec_retirement_decode(bytes@) is None && e
                    == CoreError::MalformedInput,
            },
    {
        if bytes.len() != 40 {
            return Err(CoreError::MalformedInput);
        }
        let pool = copy_range(bytes, 0, 32);
        let time = crate::bytes::read_u64_be(bytes, 32);
        Ok(
            PoolRetirement {
                pool_id: PoolId { bytes: pool },
                retirement_time: TimeOffsetSeconds { seconds: time },
            },
        )
    }
}

/// The mathematical model of a pool update certificate.
pub ghost struct PoolUpdateV {
    pub pool: Seq<u8>,
    pub start: u64,
    pub prev: Seq<u8>,
    pub leader: LeaderV,
}

/// A certificate replacing a pool's leader keys.
#[derive(Clone, Debug)]
pub struct PoolUpdate {
    pub pool_id: PoolId,
    pub start_validity: TimeOffsetSeconds,
    pub previous_keys: GenesisPraosLeaderHash,
    pub updated_keys: GenesisPraosLeader,
}

impl View for PoolUpdate {
    type V = PoolUpdateV;

    open spec fn view(&self) -> PoolUpdateV {
        PoolUpdateV {
            pool: self.pool_id.bytes@,
            start: self.start_validity.seconds,
            prev: self.previous_keys.bytes@,
            leader: self.updated_keys@,
        }
    }
}

/// The canonical bytes of a pool update certificate.
pub open spec fn update_bytes(m: PoolUpdateV) -> Seq<u8> {
    m.pool + be_bytes(m.start as int, 8) + m.prev + leader_bytes(m.leader)
}

/// Is the model well formed?
pub open spec fn wf_update(m: PoolUpdateV) -> bool {
    m.pool.len() == 32 && m.prev.len() == 32 && wf_leader(m.leader)
}

/// The certificate denoted by `s`, if `s` is exactly one encoding.
pub open spec fn spec_update_decode(s: Seq<u8>) -> Option<PoolUpdateV> {
    if s.len() == 136 {
        Some(
            PoolUpdateV {
                pool: s.subrange(0, 32),
                start: be_val(s.subrange(32, 40)) as u64,
                prev: s.subrange(40, 72),
                leader: LeaderV { vrf: s.subrange(72, 104), kes: s.subrange(104, 136) },
            },
        )
    } else {
        None
    }
}

/// Decoding inverts encoding for every well-formed pool update.
pub proof fn lemma_update_round_trip(m: PoolUpdateV)
    requires
        wf_update(m),
    ensures
        spec_update_decode(update_bytes(m)) == Some(m),
{
    let s = update_bytes(m);
    lemma_be_bytes_len(m.start as int, 8);
    assert(s.subrange(0, 32) =~= m.pool);
    assert(s.subrange(32, 40) =~= be_bytes(m.start as int, 8));
    assert(s.subrange(40, 72) =~= m.prev);
    assert(s.subrange(72, 104) =~= m.leader.vrf);
    assert(s.subrange(104, 136) =~= m.leader.kes);
    crate::bytes::lemma_pow256_8();
    lemma_be_round_trip(m.start as int, 8);
}

/// Encoding inverts decoding: every 136-byte string is the encoding of
/// the update it decodes to.  With the round trip above, the update
/// codec is a bijection.
pub proof fn lemma_update_decode_inverts(s: Seq<u8>)
    ensures
        match spec_update_decode(s) {
            Some(m) => update_bytes(m) == s && wf_update(m),
            None => true,
        },
{
    match spec_update_decode(s) {
        Some(m) => {
            crate::bytes::lemma_be_val_bounds(s.subrange(32, 40));
            crate::bytes::lemma_pow256_8();
            crate::bytes::lemma_be_bytes_of_val(s.subrange(32, 40));
            assert(m.start as int == be_val(s.subrange(32, 40)));
            assert(update_bytes(m) =~= s);
        },
        None => {},
    }
}

impl PoolUpdate {
    /// Is the certificate well formed?
    pub open spec fn wf(&self) -> bool {
        wf_update(self@)
    }

    /// Update the given pool's keys.
    pub fn new(
        pool_id: &PoolId,
        start_validity: &TimeOffsetSeconds,
        previous_keys: &GenesisPraosLeaderHash,
        updated_keys: &GenesisPraosLeader,
    ) -> (r: PoolUpdate)
        ensures
            r@.pool == pool_id.bytes@,
            r@.start == start_validity.seconds,
            r@.prev == previous_keys.bytes@,
            r@.leader == updated_keys@,
            pool_id.wf() && previous_keys.wf() && updated_keys.wf() ==> r.wf(),
    {
        PoolUpdate {
            pool_id: PoolId { bytes: dup_bytes(&pool_id.bytes) },
            start_validity: TimeOffsetSeconds { seconds: start_validity.seconds },
            previous_keys: GenesisPraosLeaderHash { bytes: dup_bytes(&previous_keys.bytes) },
            updated_keys: GenesisPraosLeader::new(
                &updated_keys.kes_public_key,
                &updated_keys.vrf_public_key,
            ),
        }
    }

    /// The pool being updated.
    pub fn pool_id(&self) -> (r: PoolId)
        ensures
            r.bytes@ == self@.pool,
    {
        PoolId { bytes: dup_bytes(&self.pool_id.bytes) }
    }

    /// When the new keys take effect.
    pub fn start_validity(&self) -> (r: TimeOffsetSeconds)
        ensures
            r.seconds == self@.start,
    {
        TimeOffsetSeconds { seconds: self.start_validity.seconds }
    }

    /// The digest of the keys being replaced.
    pub fn previous_keys(&self) -> (r: GenesisPraosLeaderHash)
        ensures
            r.bytes@ == self@.prev,
    {
        GenesisPraosLeaderHash { bytes: dup_bytes(&self.previous_keys.bytes) }
    }

    /// The new leader keys.
    pub fn updated_keys(&self) -> (r: GenesisPraosLeader)
        ensures
            r@ == self@.leader,
    {
        GenesisPraosLeader::new(&self.updated_keys.kes_public_key, &self.updated_keys.vrf_public_key)
    }

    /// The canonical byte encoding.
    pub fn as_bytes(&self) -> (r: Vec<u8>)
        requires
            self.wf(),
        ensures
            r@ == update_bytes(self@),
    {
        let mut v: Vec<u8> = Vec::new();
        push_bytes(&mut v, self.pool_id.bytes.as_slice());
        push_be(&mut v, self.start_validity.seconds as u128, 8);
        push_bytes(&mut v, self.previous_keys.bytes.as_slice());
        push_bytes(&mut v, self.updated_keys.vrf_public_key.bytes.as_slice());
        push_bytes(&mut v, self.updated_keys.kes_public_key.bytes.as_slice());
        proof {
            assert(v@ =~= update_bytes(self@));
        }
        v
    }

    /// Read a certificate from its canonical bytes.
    pub fn from_bytes(bytes: &[u8]) -> (r: Result<PoolUpdate, CoreError>)
        ensures
            match r {
                Ok(c) => spec_update_decode(bytes@) == Some(c@) && c.wf(),
                Err(e) => spec_update_decode(bytes@) is None && e == CoreError::MalformedInput,
            },
    {
        if bytes.len() != 136 {
            return Err(CoreError::MalformedInput);
        }
        let pool = copy_range(bytes, 0, 32);
        let start = crate::bytes::read_u64_be(bytes, 32);
        let prev = copy_range(bytes, 40, 32);
        let vrf = copy_range(bytes, 72, 32);
        let kes = copy_range(bytes, 104, 32);
        Ok(
            PoolUpdate {
                pool_id: PoolId { bytes: pool },
                start_validity: TimeOffsetSeconds { seconds: start },
                previous_keys: GenesisPraosLeaderHash { bytes: prev },
                updated_keys: GenesisPraosLeader {
                    vrf_public_key: VrfPublicKey { bytes: vrf },
                    kes_public_key: KesPublicKey { bytes: kes },
                },
            },
        )
    }
}

/// The payload byte models of a key list, in order.
pub open spec fn keys_of(s: Seq<PublicKey>) -> Seq<Seq<u8>> {
    Seq::new(s.len(), |i: int| s[i].bytes@)
}

/// The canonical bytes of a key list, in order.
pub open spec fn keys_bytes(ks: Seq<Seq<u8>>) -> Seq<u8>
    decreases ks.len(),
{
    if ks.len() == 0 {
        Seq::empty()
    } else {
        keys_bytes(ks.drop_last()) + ks.last()
    }
}

/// Are all keys in the list 32 bytes wide?
pub open spec fn wf_keys(ks: Seq<Seq<u8>>) -> bool {
    forall|i: int| 0 <= i < ks.len() ==> (#[trigger] ks[i]).len() == 32
}

/// A well-formed key list encodes to 32 bytes per key.
pub proof fn lemma_keys_bytes_len(ks: Seq<Seq<u8>>)
    requires
        wf_keys(ks),
    ensures
        keys_bytes(ks).len() == 32 * ks.len(),
    decreases ks.len(),
{
    if ks.len() > 0 {
        lemma_keys_bytes_len(ks.drop_last());
    }
}

/// Each key sits at its own 32-byte slot of the encoding.
pub proof fn lemma_keys_bytes_index(ks: Seq<Seq<u8>>, i: int)
    requires
        wf_keys(ks),
        0 <= i < ks.len(),
    ensures
        keys_bytes(ks).subrange(32 * i, 32 * i + 32) == ks[i],
    decreases ks.len(),
{
    lemma_keys_bytes_len(ks);
    if i == ks.len() - 1 {
        lemma_keys_bytes_len(ks.drop_last());
        assert(keys_bytes(ks).subrange(32 * i, 32 * i + 32) =~= ks[i]);
    } else {
        lemma_keys_bytes_index(ks.drop_last(), i);
        lemma_keys_bytes_len(ks.drop_last());
        assert(keys_bytes(ks).subrange(32 * i, 32 * i + 32) =~= keys_bytes(
            ks.drop_last(),
        ).subrange(32 * i, 32 * i + 32));
    }
}

/// The canonical bytes of an optional reward account: a tag byte, then
/// the 32-byte key or root where one is present.
pub open spec fn reward_account_bytes(a: Option<AccountV>) -> Seq<u8> {
    match a {
        None => seq![0u8],
        Some(AccountV::Single(pk)) => seq![1u8] + pk,
        Some(AccountV::Multi(m)) => seq![2u8] + m,
    }
}

/// The mathematical model of a pool registration certificate.
pub ghost struct PoolRegistrationV {
    pub serial: u128,
    pub start: u64,
    pub threshold: u8,
    pub owners: Seq<Seq<u8>>,
    pub operators: Seq<Seq<u8>>,
    pub rewards: TaxTypeV,
    pub reward_account: Option<AccountV>,
    pub leader: LeaderV,
}

/// A certificate registering a pool: its serial, owner and operator
/// keys, management threshold, start of validity, reward tax, optional
/// reward account and leader keys.
#[derive(Clone, Debug)]
pub struct PoolRegistration {
    pub serial: crate::value::U128,
    pub start_validity: TimeOffsetSeconds,
    pub management_threshold: u8,
    pub owners: PublicKeys,
    pub operators: PublicKeys,
    pub rewards: TaxType,
    pub reward_account: Option<Account>,
    pub keys: GenesisPraosLeader,
}

impl View for PoolRegistration {
    type V = PoolRegistrationV;

    open spec fn view(&self) -> PoolRegistrationV {
        PoolRegistrationV {
            serial: self.serial.number,
            start: self.start_validity.seconds,
            threshold: self.management_threshold,
            owners: keys_of(self.owners.keys@),
            operators: keys_of(self.operators.keys@),
            rewards: self.rewards@,
            reward_account: match &self.reward_account {
                Some(a) => Some(a@),
                None => None,
            },
            leader: self.keys@,
        }
    }
}

/// Is the model well formed?
pub open spec fn wf_registration(m: PoolRegistrationV) -> bool {
    &&& m.owners.len() <= 255
    &&& m.operators.len() <= 255
    &&& wf_keys(m.owners)
    &&& wf_keys(m.operators)
    &&& wf_tax(m.rewards)
    &&& match m.reward_account {
        None => true,
        Some(AccountV::Single(pk)) => pk.len() == 32,
        Some(AccountV::Multi(r)) => r.len() == 32,
    }
    &&& wf_leader(m.leader)
}

/// The canonical bytes of a pool registration certificate.
pub open spec fn registration_bytes(m: PoolRegistrationV) -> Seq<u8> {
    be_bytes(m.serial as int, 16) + be_bytes(m.start as int, 8) + seq![
        m.threshold,
        m.owners.len() as u8,
    ] + keys_bytes(m.owners) + seq![m.operators.len() as u8] + keys_bytes(m.operators)
        + tax_bytes(m.rewards) + reward_account_bytes(m.reward_account) + leader_bytes(m.leader)
}

/// The identity bytes of a pool: its serial and its leader keys.  The
/// pool id hashes these alone, so changes to the mutable fields of a
/// registration never change the id.
pub open spec fn pool_identity_bytes(m: PoolRegistrationV) -> Seq<u8> {
    be_bytes(m.serial as int, 16) + leader_bytes(m.leader)
}

/// The certificate denoted by `s`, if `s` is exactly one well-formed
/// encoding.
pub open spec fn spec_registration_decode(s: Seq<u8>) -> Option<PoolRegistrationV> {
    if s.len() < 27 {
        None
    } else {
        let oc = s[25] as int;
        if s.len() < 27 + 32 * oc {
            None
        } else {
            let p0 = 27 + 32 * oc;
            let pc = s[p0 - 1] as int;
            if s.len() < p0 + 32 * pc + 33 {
                None
            } else {
                let q0 = p0 + 32 * pc;
                let den = be_val(s.subrange(q0 + 16, q0 + 24));
                let maxraw = be_val(s.subrange(q0 + 24, q0 + 32));
                let t = s[q0 + 32];
                let alen: int = if t == 0 {
                    0
                } else {
                    32
                };
                if t > 2 || s.len() != q0 + 33 + alen + 64 || den == 0 {
                    None
                } else {
                    Some(
                        PoolRegistrationV {
                            serial: be_val(s.subrange(0, 16)) as u128,
                            start: be_val(s.subrange(16, 24)) as u64,
                            threshold: s[24],
                            owners: Seq::new(
                                oc as nat,
                                |i: int| s.subrange(26 + 32 * i, 26 + 32 * i + 32),
                            ),
                            operators: Seq::new(
                                pc as nat,
                                |i: int| s.subrange(p0 + 32 * i, p0 + 32 * i + 32),
                            ),
                            rewards: TaxTypeV {
                                fixed: be_val(s.subrange(q0, q0 + 8)) as u64,
                                num: be_val(s.subrange(q0 + 8, q0 + 16)) as u64,
                                den: den as u64,
                                max: if maxraw == 0 {
                                    None
                                } else {
                                    Some(maxraw as u64)
                                },
                            },
                            reward_account: if t == 0 {
                                None
                            } else if t == 1 {
                                Some(AccountV::Single(s.subrange(q0 + 33, q0 + 65)))
                            } else {
                                Some(AccountV::Multi(s.subrange(q0 + 33, q0 + 65)))
                            },
                            leader: LeaderV {
                                vrf: s.subrange(q0 + 33 + alen, q0 + 33 + alen + 32),
                                kes: s.subrange(q0 + 33 + alen + 32, q0 + 33 + alen + 64),
                            },
                        },
                    )
                }
            }
        }
    }
}

/// Decoding inverts encoding for every well-formed pool registration.
pub proof fn lemma_registration_round_trip(m: PoolRegistrationV)
    requires
        wf_registration(m),
    ensures
        spec_registration_decode(registration_bytes(m)) == Some(m),
{
    let s = registration_bytes(m);
    lemma_be_bytes_len(m.serial as int, 16);
    lemma_be_bytes_len(m.start as int, 8);
    lemma_keys_bytes_len(m.owners);
    lemma_keys_bytes_len(m.operators);
    lemma_be_bytes_len(m.rewards.fixed as int, 8);
    lemma_be_bytes_len(m.rewards.num as int, 8);
    lemma_be_bytes_len(m.rewards.den as int, 8);
    lemma_be_bytes_len(
        match m.rewards.max {
            Some(x) => x as int,
            None => 0,
        },
        8,
    );
    let oc = m.owners.len() as int;
    let pc = m.operators.len() as int;
    let p0 = 27 + 32 * oc;
    let q0 = p0 + 32 * pc;
    let alen: int = match m.reward_account {
        None => 0,
        Some(_) => 32,
    };
    assert(s[25] == oc as u8);
    assert(s[p0 - 1] == pc as u8);
    assert(s.len() == q0 + 33 + alen + 64);
    assert(s.subrange(0, 16) =~= be_bytes(m.serial as int, 16));
    assert(s.subrange(16, 24) =~= be_bytes(m.start as int, 8));
    crate::bytes::lemma_pow256_8();
    lemma_pow256_16();
    lemma_be_round_trip(m.serial as int, 16);
    lemma_be_round_trip(m.start as int, 8);
    assert forall|i: int| 0 <= i < oc implies s.subrange(26 + 32 * i, 26 + 32 * i + 32)
        == m.owners[i] by {
        lemma_keys_bytes_index(m.owners, i);
        assert(s.subrange(26 + 32 * i, 26 + 32 * i + 32) =~= keys_bytes(m.owners).subrange(
            32 * i,
            32 * i + 32,
        ));
    }
    assert(Seq::new(oc as nat, |i: int| s.subrange(26 + 32 * i, 26 + 32 * i + 32))
        =~= m.owners);
    assert forall|i: int| 0 <= i < pc implies s.subrange(p0 + 32 * i, p0 + 32 * i + 32)
        == m.operators[i] by {
        lemma_keys_bytes_index(m.operators, i);
        assert(s.subrange(p0 + 32 * i, p0 + 32 * i + 32) =~= keys_bytes(m.operators).subrange(
            32 * i,
            32 * i + 32,
        ));
    }
    assert(Seq::new(pc as nat, |i: int| s.subrange(p0 + 32 * i, p0 + 32 * i + 32))
        =~= m.operators);
    assert(s.subrange(q0, q0 + 8) =~= be_bytes(m.rewards.fixed as int, 8));
    assert(s.subrange(q0 + 8, q0 + 16) =~= be_bytes(m.rewards.num as int, 8));
    assert(s.subrange(q0 + 16, q0 + 24) =~= be_bytes(m.rewards.den as int, 8));
    assert(s.subrange(q0 + 24, q0 + 32) =~= be_bytes(
        match m.rewards.max {
            Some(x) => x as int,
            None => 0,
        },
        8,
    ));
    lemma_be_round_trip(m.rewards.fixed as int, 8);
    lemma_be_round_trip(m.rewards.num as int, 8);
    lemma_be_round_trip(m.rewards.den as int, 8);
    lemma_be_round_trip(
        match m.rewards.max {
            Some(x) => x as int,
            None => 0,
        },
        8,
    );
    match m.reward_account {
        None => {},
        Some(AccountV::Single(pk)) => {
            assert(s[q0 + 32] == 1u8);
            assert(s.subrange(q0 + 33, q0 + 65) =~= pk);
        },
        Some(AccountV::Multi(root)) => {
            assert(s[q0 + 32] == 2u8);
            assert(s.subrange(q0 + 33, q0 + 65) =~= root);
        },
    }
    assert(s.subrange(q0 + 33 + alen, q0 + 33 + alen + 32) =~= m.leader.vrf);
    assert(s.subrange(q0 + 33 + alen + 32, q0 + 33 + alen + 64) =~= m.leader.kes);
}

/// A key list read slot by slot from a region re-encodes to exactly
/// that region.
proof fn lemma_keys_region(s: Seq<u8>, off: int, n: int)
    requires
        0 <= n,
        0 <= off,
        off + 32 * n <= s.len(),
    ensures
        keys_bytes(Seq::new(n as nat, |i: int| s.subrange(off + 32 * i, off + 32 * i + 32)))
            == s.subrange(off, off + 32 * n),
    decreases n,
{
    let ks = Seq::new(n as nat, |i: int| s.subrange(off + 32 * i, off + 32 * i + 32));
    if n == 0 {
        assert(keys_bytes(ks) =~= s.subrange(off, off));
    } else {
        lemma_keys_region(s, off, n - 1);
        assert(ks.drop_last() =~= Seq::new(
            (n - 1) as nat,
            |i: int| s.subrange(off + 32 * i, off + 32 * i + 32),
        ));
        assert(keys_bytes(ks) =~= s.subrange(off, off + 32 * n));
    }
}

/// Encoding inverts decoding for pool registrations too: with the
/// round trip above, the codec is a bijection.
#[verifier::rlimit(100)]
pub proof fn lemma_registration_decode_inverts(s: Seq<u8>)
    ensures
        match spec_registration_decode(s) {
            Some(m) => registration_bytes(m) == s && wf_registration(m),
            None => true,
        },
{
    match spec_registration_decode(s) {
        Some(m) => {
            let oc = s[25] as int;
            let p0 = 27 + 32 * oc;
            let pc = s[p0 - 1] as int;
            let q0 = p0 + 32 * pc;
            let t = s[q0 + 32];
            let alen: int = if t == 0 {
                0
            } else {
                32
            };
            crate::bytes::lemma_be_val_bounds(s.subrange(0, 16));
            lemma_pow256_16();
            crate::bytes::lemma_pow256_8();
            crate::bytes::lemma_be_val_bounds(s.subrange(16, 24));
            crate::bytes::lemma_be_val_bounds(s.subrange(q0, q0 + 8));
            crate::bytes::lemma_be_val_bounds(s.subrange(q0 + 8, q0 + 16));
            crate::bytes::lemma_be_val_bounds(s.subrange(q0 + 16, q0 + 24));
            crate::bytes::lemma_be_val_bounds(s.subrange(q0 + 24, q0 + 32));
            crate::bytes::lemma_be_bytes_of_val(s.subrange(0, 16));
            crate::bytes::lemma_be_bytes_of_val(s.subrange(16, 24));
            crate::bytes::lemma_be_bytes_of_val(s.subrange(q0, q0 + 8));
            crate::bytes::lemma_be_bytes_of_val(s.subrange(q0 + 8, q0 + 16));
            crate::bytes::lemma_be_bytes_of_val(s.subrange(q0 + 16, q0 + 24));
            crate::bytes::lemma_be_bytes_of_val(s.subrange(q0 + 24, q0 + 32));
            lemma_keys_region(s, 26, oc);
            lemma_keys_region(s, p0, pc);
            assert(m.serial as int == be_val(s.subrange(0, 16)));
            assert(m.start as int == be_val(s.subrange(16, 24)));
            assert(m.rewards.fixed as int == be_val(s.subrange(q0, q0 + 8)));
            assert(m.rewards.num as int == be_val(s.subrange(q0 + 8, q0 + 16)));
            assert(m.rewards.den as int == be_val(s.subrange(q0 + 16, q0 + 24)));
            assert(be_bytes(
                match m.rewards.max {
                    Some(x) => x as int,
                    None => 0,
                },
                8,
            ) == s.subrange(q0 + 24, q0 + 32));
            assert(keys_bytes(m.owners) == s.subrange(26, 26 + 32 * oc));
            assert(keys_bytes(m.operators) == s.subrange(p0, p0 + 32 * pc));
            assert(registration_bytes(m) =~= s);
        },
        None => {},
    }
}

/// Copy a key list.
fn dup_keys(keys: &PublicKeys) -> (r: PublicKeys)
    ensures
        keys_of(r.keys@) == keys_of(keys.keys@),
        r.keys@.len() == keys.keys@.len(),
{
    let n = keys.keys.len();
    let mut out: Vec<PublicKey> = Vec::new();
    let mut i: usize = 0;
    while i < n
        invariant
            0 <= i <= n,
            n == keys.keys@.len(),
            out@.len() == i,
            forall|k: int| 0 <= k < i ==> (#[trigger] out@[k]).bytes@ == keys.keys@[k].bytes@,
        decreases n - i,
    {
        out.push(PublicKey { bytes: dup_bytes(&keys.keys[i].bytes) });
        i = i + 1;
    }
    proof {
        assert(keys_of(out@) =~= keys_of(keys.keys@));
    }
    PublicKeys { keys: out }
}

/// Copy an optional reward account.
fn dup_reward_account(a: &Option<Account>) -> (r: Option<Account>)
    ensures
        match a {
            Some(x) => r matches Some(y) && y@ == x@,
            None => r is None,
        },
{
    match a {
        Some(Account::Single(pk)) => Some(Account::Single(PublicKey { bytes: dup_bytes(&pk.bytes) })),
        Some(Account::Multi(m)) => Some(Account::Multi(dup_bytes(m))),
        None => None,
    }
}

impl PoolRegistration {
    /// Is the certificate well formed?
    pub open spec fn wf(&self) -> bool {
        wf_registration(self@)
    }

    /// Register a pool.  The reward tax starts at zero and no reward
    /// account is set; both may be read back but are fixed here.
    pub fn new(
        serial: &crate::value::U128,
        owners: &PublicKeys,
        operators: &PublicKeys,
        management_threshold: u8,
        start_validity: &TimeOffsetSeconds,
        leader_keys: &GenesisPraosLeader,
    ) -> (r: PoolRegistration)
        ensures
            r@.serial == serial.number,
            r@.start == start_validity.seconds,
            r@.threshold == management_threshold,
            r@.owners == keys_of(owners.keys@),
            r@.operators == keys_of(operators.keys@),
            r@.rewards == (TaxTypeV { fixed: 0u64, num: 0u64, den: 1u64, max: None::<u64> }),
            r@.reward_account is None,
            r@.leader == leader_keys@,
    {
        PoolRegistration {
            serial: crate::value::U128 { number: serial.number },
            start_validity: TimeOffsetSeconds { seconds: start_validity.seconds },
            management_threshold,
            owners: dup_keys(owners),
            operators: dup_keys(operators),
            rewards: TaxType::zero(),
            reward_account: None,
            keys: GenesisPraosLeader::new(&leader_keys.kes_public_key, &leader_keys.vrf_public_key),
        }
    }

    /// The stable pool id: the digest of the identity bytes, which hold
    /// the serial and the leader keys alone.
    pub fn id(&self) -> (r: PoolId)
        ensures
            r.bytes@ == blake2b256_of(pool_identity_bytes(self@)),
            r.wf(),
    {
        let mut v: Vec<u8> = Vec::new();
        push_be(&mut v, self.serial.number, 16);
        push_bytes(&mut v, self.keys.vrf_public_key.bytes.as_slice());
        push_bytes(&mut v, self.keys.kes_public_key.bytes.as_slice());
        proof {
            assert(v@ =~= pool_identity_bytes(self@));
        }
        PoolId { bytes: blake2b_256(v.as_slice()) }
    }

    /// When the registration becomes valid.
    pub fn start_validity(&self) -> (r: TimeOffsetSeconds)
        ensures
            r.seconds == self@.start,
    {
        TimeOffsetSeconds { seconds: self.start_validity.seconds }
    }

    /// The owner keys.
    pub fn owners(&self) -> (r: PublicKeys)
        ensures
            keys_of(r.keys@) == self@.owners,
    {
        dup_keys(&self.owners)
    }

    /// The operator keys.
    pub fn operators(&self) -> (r: PublicKeys)
        ensures
            keys_of(r.keys@) == self@.operators,
    {
        dup_keys(&self.operators)
    }

    /// The reward tax.
    pub fn rewards(&self) -> (r: TaxType)
        ensures
            r@ == self@.rewards,
    {
        TaxType {
            fixed: self.rewards.fixed,
            ratio_numerator: self.rewards.ratio_numerator,
            ratio_denominator: self.rewards.ratio_denominator,
            max_limit: self.rewards.max_limit,
        }
    }

    /// The reward account, where one is set.
    pub fn reward_account(&self) -> (r: Option<Account>)
        ensures
            match &self.reward_account {
                Some(x) => r matches Some(y) && y@ == x@,
                None => r is None,
            },
    {
        dup_reward_account(&self.reward_account)
    }

    /// The leader keys.
    pub fn keys(&self) -> (r: GenesisPraosLeader)
        ensures
            r@ == self@.leader,
    {
        GenesisPraosLeader::new(&self.keys.kes_public_key, &self.keys.vrf_public_key)
    }

    /// The canonical byte encoding.
    pub fn as_bytes(&self) -> (r: Vec<u8>)
        requires
            self.wf(),
        ensures
            r@ == registration_bytes(self@),
    {
        let mut v: Vec<u8> = Vec::new();
        push_be(&mut v, self.serial.number, 16);
        push_be(&mut v, self.start_validity.seconds as u128, 8);
        v.push(self.management_threshold);
        let oc = self.owners.keys.len();
        v.push(oc as u8);
        let ghost header = v@;
        let mut i: usize = 0;
        while i < oc
            invariant
                0 <= i <= oc,
                oc == self.owners.keys@.len(),
                v@ =~= header + keys_bytes(keys_of(self.owners.keys@).subrange(0, i as int)),
            decreases oc - i,
        {
            proof {
                assert(keys_of(self.owners.keys@).subrange(0, i + 1).drop_last() =~= keys_of(
                    self.owners.keys@,
                ).subrange(0, i as int));
            }
            push_bytes(&mut v, self.owners.keys[i].bytes.as_slice());
            i = i + 1;
        }
        proof {
            assert(keys_of(self.owners.keys@).subrange(0, oc as int) =~= keys_of(
                self.owners.keys@,
            ));
        }
        let pc = self.operators.keys.len();
        v.push(pc as u8);
        let ghost header2 = v@;
        let mut j: usize = 0;
        while j < pc
            invariant
                0 <= j <= pc,
                pc == self.operators.keys@.len(),
                v@ =~= header2 + keys_bytes(
                    keys_of(self.operators.keys@).subrange(0, j as int),
                ),
            decreases pc - j,
        {
            proof {
                assert(keys_of(self.operators.keys@).subrange(0, j + 1).drop_last()
                    =~= keys_of(self.operators.keys@).subrange(0, j as int));
            }
            push_bytes(&mut v, self.operators.keys[j].bytes.as_slice());
            j = j + 1;
        }
        proof {
            assert(keys_of(self.operators.keys@).subrange(0, pc as int) =~= keys_of(
                self.operators.keys@,
            ));
        }
        push_be(&mut v, self.rewards.fixed as u128, 8);
        push_be(&mut v, self.rewards.ratio_numerator as u128, 8);
        push_be(&mut v, self.rewards.ratio_denominator as u128, 8);
        match self.rewards.max_limit {
            Some(x) => push_be(&mut v, x as u128, 8),
            None => push_be(&mut v, 0, 8),
        }
        match &self.reward_account {
            None => v.push(0),
            Some(Account::Single(pk)) => {
                v.push(1);
                push_bytes(&mut v, pk.bytes.as_slice());
            },
            Some(Account::Multi(root)) => {
                v.push(2);
                push_bytes(&mut v, root.as_slice());
            },
        }
        push_bytes(&mut v, self.keys.vrf_public_key.bytes.as_slice());
        push_bytes(&mut v, self.keys.kes_public_key.bytes.as_slice());
        proof {
            assert(v@ =~= registration_bytes(self@));
        }
        v
    }

    /// Read a certificate from its canonical bytes.
    pub fn from_bytes(bytes: &[u8]) -> (r: Result<PoolRegistration, CoreError>)
        ensures
            match r {
                Ok(c) => spec_registration_decode(bytes@) == Some(c@) && c.wf(),
                Err(e) => spec_registration_decode(bytes@) is None && e
                    == CoreError::MalformedInput,
            },
    {
        if bytes.len() < 27 {
            return Err(CoreError::MalformedInput);
        }
        let serial = crate::bytes::read_be(bytes, 0, 16);
        proof {
            crate::bytes::lemma_be_val_bounds(bytes@.subrange(0, 16));
            lemma_pow256_16();
        }
        let start = crate::bytes::read_u64_be(bytes, 16);
        let threshold = bytes[24];
        let oc = bytes[25] as usize;
        if bytes.len() < 27 + 32 * oc {
            return Err(CoreError::MalformedInput);
        }
        let p0 = 27 + 32 * oc;
        let pc = bytes[p0 - 1] as usize;
        if bytes.len() < p0 + 32 * pc + 33 {
            return Err(CoreError::MalformedInput);
        }
        let q0 = p0 + 32 * pc;
        let mut owners: Vec<PublicKey> = Vec::new();
        let mut i: usize = 0;
        while i < oc
            invariant
                0 <= i <= oc,
                oc <= 255,
                bytes@.len() >= 27 + 32 * oc,
                owners@.len() == i,
                forall|k: int|
                    0 <= k < i ==> (#[trigger] owners@[k]).bytes@ == bytes@.subrange(
                        26 + 32 * k,
                        26 + 32 * k + 32,
                    ),
            decreases oc - i,
        {
            owners.push(PublicKey { bytes: copy_range(bytes, 26 + 32 * i, 32) });
            i = i + 1;
        }
        let mut operators: Vec<PublicKey> = Vec::new();
        let mut j: usize = 0;
        while j < pc
            invariant
                0 <= j <= pc,
                pc <= 255,
                oc <= 255,
                p0 == 27 + 32 * oc,
                bytes@.len() >= p0 + 32 * pc,
                operators@.len() == j,
                forall|k: int|
                    0 <= k < j ==> (#[trigger] operators@[k]).bytes@ == bytes@.subrange(
                        p0 + 32 * k,
                        p0 + 32 * k + 32,
                    ),
            decreases pc - j,
        {
            operators.push(PublicKey { bytes: copy_range(bytes, p0 + 32 * j, 32) });
            j = j + 1;
        }
        let fixed = crate::bytes::read_u64_be(bytes, q0);
        let num = crate::bytes::read_u64_be(bytes, q0 + 8);
        let den = crate::bytes::read_u64_be(bytes, q0 + 16);
        let maxraw = crate::bytes::read_u64_be(bytes, q0 + 24);
        let t = bytes[q0 + 32];
        let alen: usize = if t == 0 {
            0
        } else {
            32
        };
        if t > 2 || bytes.len() != q0 + 33 + alen + 64 || den == 0 {
            proof {
                crate::bytes::lemma_be_val_bounds(bytes@.subrange(q0 + 16, q0 + 24));
                crate::bytes::lemma_pow256_8();
            }
            return Err(CoreError::MalformedInput);
        }
        let reward_account: Option<Account> = if t == 0 {
            None
        } else if t == 1 {
            Some(Account::Single(PublicKey { bytes: copy_range(bytes, q0 + 33, 32) }))
        } else {
            Some(Account::Multi(copy_range(bytes, q0 + 33, 32)))
        };
        let vrf = copy_range(bytes, q0 + 33 + alen, 32);
        let kes = copy_range(bytes, q0 + 33 + alen + 32, 32);
        let c = PoolRegistration {
            serial: crate::value::U128 { number: serial },
            start_validity: TimeOffsetSeconds { seconds: start },
            management_threshold: threshold,
            owners: PublicKeys { keys: owners },
            operators: PublicKeys { keys: operators },
            rewards: TaxType {
                fixed,
                ratio_numerator: num,
                ratio_denominator: den,
                max_limit: if maxraw == 0 {
                    None
                } else {
                    Some(maxraw)
                },
            },
            reward_account,
            keys: GenesisPraosLeader {
                vrf_public_key: VrfPublicKey { bytes: vrf },
                kes_public_key: KesPublicKey { bytes: kes },
            },
        };
        proof {
            assert(keys_of(c.owners.keys@) =~= Seq::new(
                oc as nat,
                |i: int| bytes@.subrange(26 + 32 * i, 26 + 32 * i + 32),
            ));
            assert(keys_of(c.operators.keys@) =~= Seq::new(
                pc as nat,
                |i: int| bytes@.subrange(p0 + 32 * i, p0 + 32 * i + 32),
            ));
        }
        Ok(c)
    }
}

/// The kinds of certificate, without their payloads.
#[derive(Clone, Copy, Debug, PartialEq, Eq, Structural)]
pub enum CertificateKind {
    StakeDelegation,
    OwnerStakeDelegation,
    PoolRegistration,
    PoolRetirement,
    PoolUpdate,
}

/// A certificate of any kind.
#[derive(Clone, Debug)]
pub enum Certificate {
    StakeDelegation(StakeDelegation),
    OwnerStakeDelegation(OwnerStakeDelegation),
    PoolRegistration(PoolRegistration),
    PoolRetirement(PoolRetirement),
    PoolUpdate(PoolUpdate),
}

/// The mathematical model of a certificate.
pub ghost enum CertificateV {
    StakeDelegation(StakeDelegationV),
    OwnerStakeDelegation(OwnerStakeDelegationV),
    PoolRegistration(PoolRegistrationV),
    PoolRetirement(PoolRetirementV),
    PoolUpdate(PoolUpdateV),
}

impl View for Certificate {
    type V = CertificateV;

    open spec fn view(&self) -> CertificateV {
        match self {
            Certificate::StakeDelegation(c) => CertificateV::StakeDelegation(c@),
            Certificate::OwnerStakeDelegation(c) => CertificateV::OwnerStakeDelegation(c@),
            Certificate::PoolRegistration(c) => CertificateV::PoolRegistration(c@),
            Certificate::PoolRetirement(c) => CertificateV::PoolRetirement(c@),
            Certificate::PoolUpdate(c) => CertificateV::PoolUpdate(c@),
        }
    }
}

/// Is the certificate model well formed?
pub open spec fn wf_certificate(m: CertificateV) -> bool {
    match m {
        CertificateV::StakeDelegation(c) => wf_stake_dlg(c),
        CertificateV::OwnerStakeDelegation(c) => wf_owner_dlg(c),
        CertificateV::PoolRegistration(c) => wf_registration(c),
        CertificateV::PoolRetirement(c) => wf_retirement(c),
        CertificateV::PoolUpdate(c) => wf_update(c),
    }
}

/// The canonical bytes of a certificate's payload, without a kind tag:
/// the kind travels beside the payload wherever a certificate is carried.
pub open spec fn certificate_bytes(m: CertificateV) -> Seq<u8> {
    match m {
        CertificateV::StakeDelegation(c) => stake_dlg_bytes(c),
        CertificateV::OwnerStakeDelegation(c) => owner_dlg_bytes(c),
        CertificateV::PoolRegistration(c) => registration_bytes(c),
        CertificateV::PoolRetirement(c) => retirement_bytes(c),
        CertificateV::PoolUpdate(c) => update_bytes(c),
    }
}

/// Copy a stake delegation certificate.
pub(crate) fn dup_stake_dlg(c: &StakeDelegation) -> (r: StakeDelegation)
    ensures
        r@ == c@,
{
    StakeDelegation {
        account_id: AccountIdentifier { bytes: dup_bytes(&c.account_id.bytes) },
        delegation: dup_dlg(&c.delegation),
    }
}

/// Copy an owner stake delegation certificate.
pub(crate) fn dup_owner_dlg(c: &OwnerStakeDelegation) -> (r: OwnerStakeDelegation)
    ensures
        r@ == c@,
{
    OwnerStakeDelegation { delegation: dup_dlg(&c.delegation) }
}

/// Copy a pool registration certificate.
pub(crate) fn dup_registration(c: &PoolRegistration) -> (r: PoolRegistration)
    ensures
        r@ == c@,
{
    let r = PoolRegistration {
        serial: crate::value::U128 { number: c.serial.number },
        start_validity: TimeOffsetSeconds { seconds: c.start_validity.seconds },
        management_threshold: c.management_threshold,
        owners: dup_keys(&c.owners),
        operators: dup_keys(&c.operators),
        rewards: TaxType {
            fixed: c.rewards.fixed,
            ratio_numerator: c.rewards.ratio_numerator,
            ratio_denominator: c.rewards.ratio_denominator,
            max_limit: c.rewards.max_limit,
        },
        reward_account: dup_reward_account(&c.reward_account),
        keys: GenesisPraosLeader::new(&c.keys.kes_public_key, &c.keys.vrf_public_key),
    };
    proof {
        assert(r@.reward_account == c@.reward_account);
    }
    r
}

/// Copy a pool retirement certificate.
pub(crate) fn dup_retirement(c: &PoolRetirement) -> (r: PoolRetirement)
    ensures
        r@ == c@,
{
    PoolRetirement {
        pool_id: PoolId { bytes: dup_bytes(&c.pool_id.bytes) },
        retirement_time: TimeOffsetSeconds { seconds: c.retirement_time.seconds },
    }
}

/// Copy a pool update certificate.
pub(crate) fn dup_update(c: &PoolUpdate) -> (r: PoolUpdate)
    ensures
        r@ == c@,
{
    PoolUpdate {
        pool_id: PoolId { bytes: dup_bytes(&c.pool_id.bytes) },
        start_validity: TimeOffsetSeconds { seconds: c.start_validity.seconds },
        previous_keys: GenesisPraosLeaderHash { bytes: dup_bytes(&c.previous_keys.bytes) },
        updated_keys: GenesisPraosLeader::new(
            &c.updated_keys.kes_public_key,
            &c.updated_keys.vrf_public_key,
        ),
    }
}

/// Copy a certificate.
pub(crate) fn dup_certificate(c: &Certificate) -> (r: Certificate)
    ensures
        r@ == c@,
{
    match c {
        Certificate::StakeDelegation(x) => Certificate::StakeDelegation(dup_stake_dlg(x)),
        Certificate::OwnerStakeDelegation(x) => Certificate::OwnerStakeDelegation(
            dup_owner_dlg(x),
        ),
        Certificate::PoolRegistration(x) => Certificate::PoolRegistration(dup_registration(x)),
        Certificate::PoolRetirement(x) => Certificate::PoolRetirement(dup_retirement(x)),
        Certificate::PoolUpdate(x) => Certificate::PoolUpdate(dup_update(x)),
    }
}

impl Certificate {
    /// Is the certificate well formed?
    pub open spec fn wf(&self) -> bool {
        wf_certificate(self@)
    }

    /// A certificate for a stake delegation.
    pub fn stake_delegation(stake_delegation: &StakeDelegation) -> (r: Certificate)
        ensures
            r@ == CertificateV::StakeDelegation(stake_delegation@),
    {
        Certificate::StakeDelegation(dup_stake_dlg(stake_delegation))
    }

    /// A certificate for an owner stake delegation.
    pub fn owner_stake_delegation(owner_stake: &OwnerStakeDelegation) -> (r: Certificate)
        ensures
            r@ == CertificateV::OwnerStakeDelegation(owner_stake@),
    {
        Certificate::OwnerStakeDelegation(dup_owner_dlg(owner_stake))
    }

    /// A certificate for a pool registration.
    pub fn stake_pool_registration(pool_registration: &PoolRegistration) -> (r: Certificate)
        ensures
            r@ == CertificateV::PoolRegistration(pool_registration@),
    {
        Certificate::PoolRegistration(dup_registration(pool_registration))
    }

    /// A certificate for a pool retirement.
    pub fn stake_pool_retirement(pool_retirement: &PoolRetirement) -> (r: Certificate)
        ensures
            r@ == CertificateV::PoolRetirement(pool_retirement@),
    {
        Certificate::PoolRetirement(dup_retirement(pool_retirement))
    }

    /// A certificate for a pool update.
    pub fn stake_pool_update(pool_update: &PoolUpdate) -> (r: Certificate)
        ensures
            r@ == CertificateV::PoolUpdate(pool_update@),
    {
        Certificate::PoolUpdate(dup_update(pool_update))
    }

    /// Which kind of certificate this is.
    pub fn get_type(&self) -> (r: CertificateKind)
        ensures
            match self@ {
                CertificateV::StakeDelegation(_) => r == CertificateKind::StakeDelegation,
                CertificateV::OwnerStakeDelegation(_) => r
                    == CertificateKind::OwnerStakeDelegation,
                CertificateV::PoolRegistration(_) => r == CertificateKind::PoolRegistration,
                CertificateV::PoolRetirement(_) => r == CertificateKind::PoolRetirement,
                CertificateV::PoolUpdate(_) => r == CertificateKind::PoolUpdate,
            },
    {
        match self {
            Certificate::StakeDelegation(_) => CertificateKind::StakeDelegation,
            Certificate::OwnerStakeDelegation(_) => CertificateKind::OwnerStakeDelegation,
            Certificate::PoolRegistration(_) => CertificateKind::PoolRegistration,
            Certificate::PoolRetirement(_) => CertificateKind::PoolRetirement,
            Certificate::PoolUpdate(_) => CertificateKind::PoolUpdate,
        }
    }

    /// The stake delegation payload, exactly when the certificate is one.
    pub fn get_stake_delegation(&self) -> (r: Result<StakeDelegation, CoreError>)
        ensures
            match self@ {
                CertificateV::StakeDelegation(c) => r matches Ok(x) && x@ == c,
                _ => r matches Err(e) && e == CoreError::WrongVariant,
            },
    {
        match self {
            Certificate::StakeDelegation(c) => Ok(dup_stake_dlg(c)),
            _ => Err(CoreError::WrongVariant),
        }
    }

    /// The owner stake delegation payload, exactly when the certificate
    /// is one.
    pub fn get_owner_stake_delegation(&self) -> (r: Result<OwnerStakeDelegation, CoreError>)
        ensures
            match self@ {
                CertificateV::OwnerStakeDelegation(c) => r matches Ok(x) && x@ == c,
                _ => r matches Err(e) && e == CoreError::WrongVariant,
            },
    {
        match self {
            Certificate::OwnerStakeDelegation(c) => Ok(dup_owner_dlg(c)),
            _ => Err(CoreError::WrongVariant),
        }
    }

    /// The pool registration payload, exactly when the certificate is one.
    pub fn get_pool_registration(&self) -> (r: Result<PoolRegistration, CoreError>)
        ensures
            match self@ {
                CertificateV::PoolRegistration(c) => r matches Ok(x) && x@ == c,
                _ => r matches Err(e) && e == CoreError::WrongVariant,
            },
    {
        match self {
            Certificate::PoolRegistration(c) => Ok(dup_registration(c)),
            _ => Err(CoreError::WrongVariant),
        }
    }

    /// The pool retirement payload, exactly when the certificate is one.
    pub fn get_pool_retirement(&self) -> (r: Result<PoolRetirement, CoreError>)
        ensures
            match self@ {
                CertificateV::PoolRetirement(c) => r matches Ok(x) && x@ == c,
                _ => r matches Err(e) && e == CoreError::WrongVariant,
            },
    {
        match self {
            Certificate::PoolRetirement(c) => Ok(dup_retirement(c)),
            _ => Err(CoreError::WrongVariant),
        }
    }

    /// The pool update payload, exactly when the certificate is one.
    pub fn get_pool_update(&self) -> (r: Result<PoolUpdate, CoreError>)
        ensures
            match self@ {
                CertificateV::PoolUpdate(c) => r matches Ok(x) && x@ == c,
                _ => r matches Err(e) && e == CoreError::WrongVariant,
            },
    {
        match self {
            Certificate::PoolUpdate(c) => Ok(dup_update(c)),
            _ => Err(CoreError::WrongVariant),
        }
    }

    /// The canonical bytes of the payload, without a kind tag.
    pub fn as_bytes(&self) -> (r: Vec<u8>)
        requires
            self.wf(),
        ensures
            r@ == certificate_bytes(self@),
    {
        match self {
            Certificate::StakeDelegation(c) => c.as_bytes(),
            Certificate::OwnerStakeDelegation(c) => c.as_bytes(),
            Certificate::PoolRegistration(c) => c.as_bytes(),
            Certificate::PoolRetirement(c) => c.as_bytes(),
            Certificate::PoolUpdate(c) => c.as_bytes(),
        }
    }
}

} // verus!

//! Accounts, account identifiers and stake delegation choices.
//!
//! An account is named either by a single public key or by a multisig
//! merkle root; both reduce to one unspecified 32-byte identifier form.
//! A delegation choice is empty, a full delegation to one pool, or a
//! ratio split across at least two pools whose parts sum to the whole.

use vstd::prelude::*;

use crate::address::Address;
use crate::address::AddressDiscrimination;
use crate::address::Kind;
use crate::address::KindV;
use crate::codec::hex_encode;
use crate::codec::hex_of;
use crate::error::CoreError;
use crate::keys::PublicKey;
use crate::keys::dup_bytes;
use crate::primitives::PoolId;

verus! {

/// An account reference: a single key or a multisig merkle root.
#[derive(Clone, Debug)]
pub enum Account {
    /// An account named by an Ed25519 public key.
    Single(PublicKey),
    /// An account named by a 32-byte multisig merkle root.
    Multi(Vec<u8>),
}

/// The mathematical model of an account reference.
pub ghost enum AccountV {
    Single(Seq<u8>),
    Multi(Seq<u8>),
}

impl View for Account {
    type V = AccountV;

    open spec fn view(&self) -> AccountV {
        match self {
            Account::Single(pk) => AccountV::Single(pk.bytes@),
            Account::Multi(m) => AccountV::Multi(m@),
        }
    }
}

/// The unspecified identifier bytes of an account model.
pub open spec fn account_id_bytes(a: AccountV) -> Seq<u8> {
    match a {
        AccountV::Single(pk) => pk,
        AccountV::Multi(m) => m,
    }
}

impl Account {
    /// Is the account well formed: a 32-byte key or root?
    pub open spec fn wf(&self) -> bool {
        match self@ {
            AccountV::Single(pk) => pk.len() == 32,
            AccountV::Multi(m) => m.len() == 32,
        }
    }

    /// The account named by an address, exactly when the address is an
    /// account or multisig address.
    pub fn from_address(address: &Address) -> (r: Result<Account, CoreError>)
        ensures
            match address@.kind {
                KindV::Account(pk) => r matches Ok(a) && a@ == AccountV::Single(pk),
                KindV::Multisig(m) => r matches Ok(a) && a@ == AccountV::Multi(m),
                _ => r matches Err(e) && e == CoreError::WrongVariant,
            },
    {
        match &address.kind {
            Kind::Account(pk) => Ok(Account::Single(PublicKey { bytes: dup_bytes(&pk.bytes) })),
            Kind::Multisig(m) => Ok(Account::Multi(dup_bytes(m))),
            _ => Err(CoreError::WrongVariant),
        }
    }

    /// The address that names this account under the given discrimination.
    pub fn to_address(&self, discriminant: AddressDiscrimination) -> (r: Address)
        ensures
            r@.discrimination == discriminant,
            match self@ {
                AccountV::Single(pk) => r@.kind == KindV::Account(pk),
                AccountV::Multi(m) => r@.kind == KindV::Multisig(m),
            },
            self.wf() ==> r.wf(),
    {
        match self {
            Account::Single(pk) => Address {
                discrimination: discriminant,
                kind: Kind::Account(PublicKey { bytes: dup_bytes(&pk.bytes) }),
            },
            Account::Multi(m) => Address {
                discrimination: discriminant,
                kind: Kind::Multisig(dup_bytes(m)),
            },
        }
    }

    /// The single account of the given key.
    pub fn single_from_public_key(key: &PublicKey) -> (r: Account)
        ensures
            r@ == AccountV::Single(key.bytes@),
            key.wf() ==> r.wf(),
    {
        Account::Single(PublicKey { bytes: dup_bytes(&key.bytes) })
    }

    /// The unspecified identifier form of this account.
    pub fn to_identifier(&self) -> (r: AccountIdentifier)
        ensures
            r.bytes@ == account_id_bytes(self@),
    {
        match self {
            Account::Single(pk) => AccountIdentifier { bytes: dup_bytes(&pk.bytes) },
            Account::Multi(m) => AccountIdentifier { bytes: dup_bytes(m) },
        }
    }
}

/// The unspecified 32-byte identifier of an account, stored uniformly
/// whatever kind of account it names.
#[derive(Clone, Debug)]
pub struct AccountIdentifier {
    pub bytes: Vec<u8>,
}

impl AccountIdentifier {
    /// Is the identifier well formed: exactly 32 bytes?
    pub open spec fn wf(&self) -> bool {
        self.bytes@.len() == 32
    }

    /// The lowercase hex rendering of the identifier.
    pub fn to_hex(&self) -> (r: String)
        ensures
            r@ == hex_of(self.bytes@),
    {
        hex_encode(self.bytes.as_slice())
    }

    /// Read this identifier as a single account.
    pub fn to_account_single(&self) -> (r: Result<Account, CoreError>)
        ensures
            r matches Ok(a) && a@ == AccountV::Single(self.bytes@),
    {
        Ok(Account::Single(PublicKey { bytes: dup_bytes(&self.bytes) }))
    }

    /// Read this identifier as a multisig account.
    pub fn to_account_multi(&self) -> (r: Account)
        ensures
            r@ == AccountV::Multi(self.bytes@),
    {
        Account::Multi(dup_bytes(&self.bytes))
    }
}

/// One pool's share in a delegation ratio.
#[derive(Clone, Debug)]
pub struct PoolDelegationRatio {
    pub pool: PoolId,
    pub part: u8,
}

/// The mathematical model of one pool's share.
pub ghost struct PoolShareV {
    pub pool: Seq<u8>,
    pub part: u8,
}

impl View for PoolDelegationRatio {
    type V = PoolShareV;

    open spec fn view(&self) -> PoolShareV {
        PoolShareV { pool: self.pool.bytes@, part: self.part }
    }
}

impl PoolDelegationRatio {
    /// The share of `part` parts for the given pool.
    pub fn new(pool: &PoolId, part: u8) -> (r: PoolDelegationRatio)
        ensures
            r@ == (PoolShareV { pool: pool.bytes@, part }),
    {
        PoolDelegationRatio { pool: PoolId { bytes: dup_bytes(&pool.bytes) }, part }
    }
}

/// An ordered collection of pool shares.
#[derive(Clone, Debug)]
pub struct PoolDelegationRatios {
    pub items: Vec<PoolDelegationRatio>,
}

/// The models of a share vector, in order.
pub open spec fn shares_of(s: Seq<PoolDelegationRatio>) -> Seq<PoolShareV> {
    Seq::new(s.len(), |i: int| s[i]@)
}

impl PoolDelegationRatios {
    /// The empty collection.
    pub fn new() -> (r: PoolDelegationRatios)
        ensures
            r.items@.len() == 0,
    {
        PoolDelegationRatios { items: Vec::new() }
    }

    /// How many shares the collection holds.
    pub fn size(&self) -> (r: usize)
        ensures
            r == self.items@.len(),
    {
        self.items.len()
    }

    /// The share at `index`.
    pub fn get(&self, index: usize) -> (r: PoolDelegationRatio)
        requires
            index < self.items@.len(),
        ensures
            r@ == self.items@[index as int]@,
    {
        let item = &self.items[index];
        PoolDelegationRatio { pool: PoolId { bytes: dup_bytes(&item.pool.bytes) }, part: item.part }
    }

    /// Append a share, keeping the order of insertion.
    pub fn add(&mut self, item: &PoolDelegationRatio)
        ensures
            final(self).items@.len() == old(self).items@.len() + 1,
            final(self).items@.last()@ == item@,
            forall|i: int|
                0 <= i < old(self).items@.len() ==> final(self).items@[i]
                    == old(self).items@[i],
    {
        self.items.push(
            PoolDelegationRatio { pool: PoolId { bytes: dup_bytes(&item.pool.bytes) }, part: item.part },
        );
    }
}

/// The sum of the parts of the shares.
pub open spec fn shares_sum(s: Seq<PoolShareV>) -> int
    decreases s.len(),
{
    if s.len() == 0 {
        0
    } else {
        shares_sum(s.drop_last()) + s.last().part
    }
}

/// A prefix never sums to more than the whole: parts are non-negative.
proof fn lemma_shares_sum_prefix(s: Seq<PoolShareV>, i: int)
    requires
        0 <= i <= s.len(),
    ensures
        shares_sum(s.subrange(0, i)) <= shares_sum(s),
        shares_sum(s.subrange(0, i)) >= 0,
    decreases s.len() - i,
{
    if i == s.len() {
        assert(s.subrange(0, i) =~= s);
        lemma_shares_sum_nonneg(s);
    } else {
        lemma_shares_sum_prefix(s, i + 1);
        lemma_shares_sum_nonneg(s.subrange(0, i));
        assert(s.subrange(0, i + 1).drop_last() =~= s.subrange(0, i));
    }
}

proof fn lemma_shares_sum_nonneg(s: Seq<PoolShareV>)
    ensures
        shares_sum(s) >= 0,
    decreases s.len(),
{
    if s.len() > 0 {
        lemma_shares_sum_nonneg(s.drop_last());
    }
}

/// The sum of the parts of the given shares, when it does not run past
/// the largest single-byte value.
pub(crate) fn sum_shares(items: &Vec<PoolDelegationRatio>) -> (r: Option<u32>)
    ensures
        match r {
            Some(v) => v == shares_sum(shares_of(items@)) && v <= 255,
            None => shares_sum(shares_of(items@)) > 255,
        },
{
    let n = items.len();
    let mut acc: u32 = 0;
    let mut i: usize = 0;
    while i < n
        invariant
            0 <= i <= n,
            n == items@.len(),
            acc == shares_sum(shares_of(items@).subrange(0, i as int)),
            acc <= 255,
        decreases n - i,
    {
        proof {
            assert(shares_of(items@).subrange(0, i + 1).drop_last() =~= shares_of(
                items@,
            ).subrange(0, i as int));
        }
        acc = acc + items[i].part as u32;
        if acc > 255 {
            proof {
                lemma_shares_sum_prefix(shares_of(items@), i + 1);
            }
            return None;
        }
        i = i + 1;
    }
    proof {
        assert(shares_of(items@).subrange(0, n as int) =~= shares_of(items@));
    }
    Some(acc)
}

/// A delegation ratio: `parts` total parts split across pools.
///
/// It is well formed only with at least two pool entries and with the
/// listed parts summing exactly to `parts`.
#[derive(Clone, Debug)]
pub struct DelegationRatio {
    pub parts: u8,
    pub pools: Vec<PoolDelegationRatio>,
}

impl DelegationRatio {
    /// Is the ratio well formed?
    pub open spec fn wf(&self) -> bool {
        &&& 2 <= self.pools@.len() <= 255
        &&& shares_sum(shares_of(self.pools@)) == self.parts
        &&& forall|i: int| 0 <= i < self.pools@.len() ==> (#[trigger] self.pools@[i]).pool.wf()
    }

    /// The ratio of `parts` across the given pools, or nothing unless
    /// there are at least two pools (and few enough to count in one
    /// byte) and their parts sum to `parts`.
    pub fn new(parts: u8, pools: &PoolDelegationRatios) -> (r: Option<DelegationRatio>)
        ensures
            match r {
                Some(d) => {
                    &&& 2 <= pools.items@.len() <= 255
                    &&& shares_sum(shares_of(pools.items@)) == parts
                    &&& d.parts == parts
                    &&& shares_of(d.pools@) == shares_of(pools.items@)
                    &&& d.pools@.len() == pools.items@.len()
                },
                None => !(2 <= pools.items@.len() <= 255 && shares_sum(shares_of(pools.items@))
                    == parts),
            },
    {
        let n = pools.items.len();
        if n < 2 || n > 255 {
            return None;
        }
        let acc: u32 = match sum_shares(&pools.items) {
            Some(v) => v,
            None => {
                return None;
            },
        };
        if acc != parts as u32 {
            return None;
        }
        let mut copied: Vec<PoolDelegationRatio> = Vec::new();
        let mut j: usize = 0;
        while j < n
            invariant
                0 <= j <= n,
                n == pools.items@.len(),
                copied@.len() == j,
                forall|k: int| 0 <= k < j ==> #[trigger] copied@[k]@ == pools.items@[k]@,
            decreases n - j,
        {
            let item = &pools.items[j];
            copied.push(
                PoolDelegationRatio {
                    pool: PoolId { bytes: dup_bytes(&item.pool.bytes) },
                    part: item.part,
                },
            );
            j = j + 1;
        }
        proof {
            assert(shares_of(copied@) =~= shares_of(pools.items@));
        }
        Some(DelegationRatio { parts, pools: copied })
    }
}

/// The kinds of delegation choice, without their payloads.
#[derive(Clone, Copy, Debug, PartialEq, Eq, Structural)]
pub enum DelegationKind {
    NonDelegated,
    Full,
    Ratio,
}

/// A delegation choice: none, all to one pool, or a ratio across pools.
#[derive(Clone, Debug)]
pub enum DelegationType {
    NonDelegated,
    Full(PoolId),
    Ratio(DelegationRatio),
}

/// The mathematical model of a delegation choice.
pub ghost enum DelegationTypeV {
    NonDelegated,
    Full(Seq<u8>),
    Ratio(u8, Seq<PoolShareV>),
}

impl View for DelegationType {
    type V = DelegationTypeV;

    open spec fn view(&self) -> DelegationTypeV {
        match self {
            DelegationType::NonDelegated => DelegationTypeV::NonDelegated,
            DelegationType::Full(p) => DelegationTypeV::Full(p.bytes@),
            DelegationType::Ratio(r) => DelegationTypeV::Ratio(r.parts, shares_of(r.pools@)),
        }
    }
}

impl DelegationType {
    /// Is the choice well formed?
    pub open spec fn wf(&self) -> bool {
        match self {
            DelegationType::NonDelegated => true,
            DelegationType::Full(p) => p.wf(),
            DelegationType::Ratio(r) => r.wf(),
        }
    }

    /// The empty delegation choice.
    pub fn non_delegated() -> (r: DelegationType)
        ensures
            r@ == DelegationTypeV::NonDelegated,
            r.wf(),
    {
        DelegationType::NonDelegated
    }

    /// Delegate everything to one pool.
    pub fn full(pool_id: &PoolId) -> (r: DelegationType)
        ensures
            r@ == DelegationTypeV::Full(pool_id.bytes@),
            pool_id.wf() ==> r.wf(),
    {
        DelegationType::Full(PoolId { bytes: dup_bytes(&pool_id.bytes) })
    }

    /// Delegate across pools by ratio.
    pub fn ratio(r: &DelegationRatio) -> (d: DelegationType)
        ensures
            d@ == DelegationTypeV::Ratio(r.parts, shares_of(r.pools@)),
            r.wf() ==> d.wf(),
    {
        let n = r.pools.len();
        let mut copied: Vec<PoolDelegationRatio> = Vec::new();
        let mut j: usize = 0;
        while j < n
            invariant
                0 <= j <= n,
                n == r.pools@.len(),
                copied@.len() == j,
                forall|k: int| 0 <= k < j ==> #[trigger] copied@[k]@ == r.pools@[k]@,
                forall|k: int|
                    0 <= k < j ==> (#[trigger] copied@[k]).pool.bytes@
                        == r.pools@[k].pool.bytes@,
            decreases n - j,
        {
            let item = &r.pools[j];
            copied.push(
                PoolDelegationRatio {
                    pool: PoolId { bytes: dup_bytes(&item.pool.bytes) },
                    part: item.part,
                },
            );
            j = j + 1;
        }
        proof {
            assert(shares_of(copied@) =~= shares_of(r.pools@));
        }
        DelegationType::Ratio(DelegationRatio { parts: r.parts, pools: copied })
    }

    /// Which kind of choice this is.
    pub fn get_kind(&self) -> (r: DelegationKind)
        ensures
            match self@ {
                DelegationTypeV::NonDelegated => r == DelegationKind::NonDelegated,
                DelegationTypeV::Full(_) => r == DelegationKind::Full,
                DelegationTypeV::Ratio(_, _) => r == DelegationKind::Ratio,
            },
    {
        match self {
            DelegationType::NonDelegated => DelegationKind::NonDelegated,
            DelegationType::Full(_) => DelegationKind::Full,
            DelegationType::Ratio(_) => DelegationKind::Ratio,
        }
    }

    /// The pool delegated to, exactly when the choice is a full delegation.
    pub fn get_full(&self) -> (r: Option<PoolId>)
        ensures
            match self@ {
                DelegationTypeV::Full(p) => r matches Some(id) && id.bytes@ == p,
                _ => r is None,
            },
    {
        match self {
            DelegationType::Full(p) => Some(PoolId { bytes: dup_bytes(&p.bytes) }),
            _ => None,
        }
    }
}

} // verus!

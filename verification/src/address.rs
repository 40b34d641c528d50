//! Tagged addresses: four kinds under one discrimination scheme.
//!
//! The binary layout is one tag byte (discrimination bit in the top bit,
//! kind in the rest) followed by the kind's fixed-width key or hash
//! fields.  The byte codec is bijective, and the human-readable form is
//! bech32 under a caller-chosen prefix.

use vstd::prelude::*;

use crate::bytes::copy_range;
use crate::bytes::push_bytes;
use crate::codec::bech32_decode;
use crate::codec::bech32_decode_of;
use crate::codec::bech32_encode;
use crate::codec::bech32_str_of;
use crate::codec::valid_prefix;
use crate::error::CoreError;
use crate::keys::PublicKey;
use crate::keys::dup_bytes;

verus! {

/// The network a value belongs to, embedded in every address so that an
/// address of one network is rejected on the other.
#[derive(Clone, Copy, Debug, PartialEq, Eq, Structural)]
pub enum AddressDiscrimination {
    Production,
    Test,
}

/// The four address kinds, without their payloads.
#[derive(Clone, Copy, Debug, PartialEq, Eq, Structural)]
pub enum AddressKind {
    Single,
    Group,
    Account,
    Multisig,
}

/// An address kind with its payload.
#[derive(Clone, Debug)]
pub enum Kind {
    /// A UTXO spending key.
    Single(PublicKey),
    /// A UTXO spending key grouped with an account key.
    Group(PublicKey, PublicKey),
    /// An account key.
    Account(PublicKey),
    /// The merkle root of a multisig declaration: 32 bytes.
    Multisig(Vec<u8>),
}

/// The mathematical model of an address kind: the raw payload bytes.
pub ghost enum KindV {
    Single(Seq<u8>),
    Group(Seq<u8>, Seq<u8>),
    Account(Seq<u8>),
    Multisig(Seq<u8>),
}

/// The mathematical model of an address.
pub ghost struct AddressV {
    pub discrimination: AddressDiscrimination,
    pub kind: KindV,
}

/// An address of any kind under either discrimination.
#[derive(Clone, Debug)]
pub struct Address {
    pub discrimination: AddressDiscrimination,
    pub kind: Kind,
}

impl View for Address {
    type V = AddressV;

    open spec fn view(&self) -> AddressV {
        AddressV {
            discrimination: self.discrimination,
            kind: match self.kind {
                Kind::Single(ref pk) => KindV::Single(pk.bytes@),
                Kind::Group(ref s, ref a) => KindV::Group(s.bytes@, a.bytes@),
                Kind::Account(ref pk) => KindV::Account(pk.bytes@),
                Kind::Multisig(ref m) => KindV::Multisig(m@),
            },
        }
    }
}

/// Is the model well formed: every payload has its fixed width?
pub open spec fn wf_address(m: AddressV) -> bool {
    match m.kind {
        KindV::Single(pk) => pk.len() == 32,
        KindV::Group(s, a) => s.len() == 32 && a.len() == 32,
        KindV::Account(pk) => pk.len() == 32,
        KindV::Multisig(r) => r.len() == 32,
    }
}

/// The kind part of an address tag byte.
pub open spec fn kind_tag(k: KindV) -> u8 {
    match k {
        KindV::Single(_) => 3,
        KindV::Group(_, _) => 4,
        KindV::Account(_) => 5,
        KindV::Multisig(_) => 6,
    }
}

/// The tag byte: the kind, with the top bit set under `Test`.
pub open spec fn addr_tag(m: AddressV) -> u8 {
    if m.discrimination == AddressDiscrimination::Test {
        (kind_tag(m.kind) + 0x80) as u8
    } else {
        kind_tag(m.kind)
    }
}

/// The payload bytes after the tag.
pub open spec fn addr_payload(k: KindV) -> Seq<u8> {
    match k {
        KindV::Single(pk) => pk,
        KindV::Group(s, a) => s + a,
        KindV::Account(pk) => pk,
        KindV::Multisig(r) => r,
    }
}

/// The canonical byte encoding of an address.
pub open spec fn addr_bytes(m: AddressV) -> Seq<u8> {
    seq![addr_tag(m)] + addr_payload(m.kind)
}

/// The address denoted by `s`, if `s` is a well-formed encoding.
pub open spec fn spec_addr_decode(s: Seq<u8>) -> Option<AddressV> {
    if s.len() < 1 {
        None
    } else {
        let t = s[0];
        let disc = if t >= 0x80 {
            AddressDiscrimination::Test
        } else {
            AddressDiscrimination::Production
        };
        let base: u8 = if t >= 0x80 {
            (t - 0x80) as u8
        } else {
            t
        };
        if base == 3 && s.len() == 33 {
            Some(AddressV { discrimination: disc, kind: KindV::Single(s.subrange(1, 33)) })
        } else if base == 4 && s.len() == 65 {
            Some(
                AddressV {
                    discrimination: disc,
                    kind: KindV::Group(s.subrange(1, 33), s.subrange(33, 65)),
                },
            )
        } else if base == 5 && s.len() == 33 {
            Some(AddressV { discrimination: disc, kind: KindV::Account(s.subrange(1, 33)) })
        } else if base == 6 && s.len() == 33 {
            Some(AddressV { discrimination: disc, kind: KindV::Multisig(s.subrange(1, 33)) })
        } else {
            None
        }
    }
}

/// Decoding inverts encoding: every well-formed address survives the
/// round trip through its byte encoding unchanged.
pub proof fn lemma_address_bytes_round_trip(m: AddressV)
    requires
        wf_address(m),
    ensures
        spec_addr_decode(addr_bytes(m)) == Some(m),
{
    let s = addr_bytes(m);
    match m.kind {
        KindV::Single(pk) => {
            assert(s.subrange(1, 33) =~= pk);
        },
        KindV::Group(sp, ac) => {
            assert(s.subrange(1, 33) =~= sp);
            assert(s.subrange(33, 65) =~= ac);
        },
        KindV::Account(pk) => {
            assert(s.subrange(1, 33) =~= pk);
        },
        KindV::Multisig(r) => {
            assert(s.subrange(1, 33) =~= r);
        },
    }
}

/// Encoding inverts decoding: every byte string that decodes is the
/// encoding of the address it decodes to.  With the round trip above,
/// the codec is a bijection between well-formed addresses and their
/// encodings.
pub proof fn lemma_address_decode_inverts(s: Seq<u8>)
    ensures
        match spec_addr_decode(s) {
            Some(m) => addr_bytes(m) == s && wf_address(m),
            None => true,
        },
{
    match spec_addr_decode(s) {
        Some(m) => {
            assert(addr_bytes(m) =~= s);
        },
        None => {},
    }
}

impl Address {
    /// Is the address well formed?
    pub open spec fn wf(&self) -> bool {
        wf_address(self@)
    }

    /// Read an address from its canonical bytes.
    pub fn from_bytes(bytes: &[u8]) -> (r: Result<Address, CoreError>)
        ensures
            match r {
                Ok(a) => spec_addr_decode(bytes@) == Some(a@) && a.wf(),
                Err(e) => spec_addr_decode(bytes@) is None && e == CoreError::MalformedAddress,
            },
    {
        if bytes.len() < 1 {
            return Err(CoreError::MalformedAddress);
        }
        let t = bytes[0];
        let discrimination = if t >= 0x80 {
            AddressDiscrimination::Test
        } else {
            AddressDiscrimination::Production
        };
        let base = if t >= 0x80 {
            t - 0x80
        } else {
            t
        };
        if base == 3 && bytes.len() == 33 {
            let pk = PublicKey { bytes: copy_range(bytes, 1, 32) };
            Ok(Address { discrimination, kind: Kind::Single(pk) })
        } else if base == 4 && bytes.len() == 65 {
            let sp = PublicKey { bytes: copy_range(bytes, 1, 32) };
            let ac = PublicKey { bytes: copy_range(bytes, 33, 32) };
            Ok(Address { discrimination, kind: Kind::Group(sp, ac) })
        } else if base == 5 && bytes.len() == 33 {
            let pk = PublicKey { bytes: copy_range(bytes, 1, 32) };
            Ok(Address { discrimination, kind: Kind::Account(pk) })
        } else if base == 6 && bytes.len() == 33 {
            let root = copy_range(bytes, 1, 32);
            Ok(Address { discrimination, kind: Kind::Multisig(root) })
        } else {
            Err(CoreError::MalformedAddress)
        }
    }

    /// The canonical byte encoding of the address.
    pub fn as_bytes(&self) -> (r: Vec<u8>)
        requires
            self.wf(),
        ensures
            r@ == addr_bytes(self@),
    {
        let tag: u8 = match (&self.kind, &self.discrimination) {
            (Kind::Single(_), AddressDiscrimination::Production) => 3,
            (Kind::Single(_), AddressDiscrimination::Test) => 3 + 0x80,
            (Kind::Group(_, _), AddressDiscrimination::Production) => 4,
            (Kind::Group(_, _), AddressDiscrimination::Test) => 4 + 0x80,
            (Kind::Account(_), AddressDiscrimination::Production) => 5,
            (Kind::Account(_), AddressDiscrimination::Test) => 5 + 0x80,
            (Kind::Multisig(_), AddressDiscrimination::Production) => 6,
            (Kind::Multisig(_), AddressDiscrimination::Test) => 6 + 0x80,
        };
        let mut v: Vec<u8> = Vec::new();
        v.push(tag);
        match &self.kind {
            Kind::Single(pk) => push_bytes(&mut v, pk.bytes.as_slice()),
            Kind::Group(sp, ac) => {
                push_bytes(&mut v, sp.bytes.as_slice());
                push_bytes(&mut v, ac.bytes.as_slice());
            },
            Kind::Account(pk) => push_bytes(&mut v, pk.bytes.as_slice()),
            Kind::Multisig(root) => push_bytes(&mut v, root.as_slice()),
        }
        proof {
            assert(v@ =~= addr_bytes(self@));
        }
        v
    }

    /// Read an address from its bech32 rendering, accepting any prefix.
    ///
    /// A success is owed exactly on strings the bech32 decoder accepts
    /// whose payload is a well-formed address encoding; a corrupted
    /// string, one whose checksum no longer matches, is rejected with
    /// `InvalidChecksum`.
    pub fn from_string(s: &str) -> (r: Result<Address, CoreError>)
        ensures
            match r {
                Ok(a) => {
                    &&& a.wf()
                    &&& (bech32_decode_of(s@) matches Some(p) && spec_addr_decode(p.1) == Some(
                        a@,
                    ))
                },
                Err(e) => match bech32_decode_of(s@) {
                    None => e == CoreError::InvalidChecksum,
                    Some(p) => spec_addr_decode(p.1) is None && e
                        == CoreError::MalformedAddress,
                },
            },
            forall|p: Seq<char>, m: AddressV|
                valid_prefix(p) && wf_address(m) && s@ == #[trigger] bech32_str_of(
                    p,
                    addr_bytes(m),
                ) ==> (r matches Ok(a) && a@ == m),
    {
        match bech32_decode(s) {
            Ok((_hrp, data)) => {
                match Address::from_bytes(data.as_slice()) {
                    Ok(a) => {
                        proof {
                            assert forall|p: Seq<char>, m: AddressV|
                                valid_prefix(p) && wf_address(m) && s@
                                    == #[trigger] bech32_str_of(p, addr_bytes(m)) implies a@
                                == m by {
                                lemma_address_bytes_round_trip(m);
                                assert(data@ == addr_bytes(m));
                            }
                        }
                        Ok(a)
                    },
                    Err(e) => {
                        proof {
                            assert forall|p: Seq<char>, m: AddressV|
                                valid_prefix(p) && wf_address(m) implies s@
                                != #[trigger] bech32_str_of(p, addr_bytes(m)) by {
                                if s@ == bech32_str_of(p, addr_bytes(m)) {
                                    lemma_address_bytes_round_trip(m);
                                    assert(data@ == addr_bytes(m));
                                }
                            }
                        }
                        Err(e)
                    },
                }
            },
            Err(_) => {
                proof {
                    assert forall|p: Seq<char>, m: AddressV|
                        valid_prefix(p) && wf_address(m) implies s@ != #[trigger] bech32_str_of(
                        p,
                        addr_bytes(m),
                    ) by {
                        if s@ == bech32_str_of(p, addr_bytes(m)) {
                            lemma_address_bytes_round_trip(m);
                        }
                    }
                }
                Err(CoreError::InvalidChecksum)
            },
        }
    }

    /// The bech32 rendering of the address under the given prefix.
    pub fn to_string(&self, prefix: &str) -> (r: String)
        requires
            self.wf(),
            valid_prefix(prefix@),
        ensures
            r@ == bech32_str_of(prefix@, addr_bytes(self@)),
    {
        let bytes = self.as_bytes();
        bech32_encode(prefix, bytes.as_slice())
    }

    /// A single address spending through the given key.
    pub fn single_from_public_key(key: &PublicKey, discrimination: AddressDiscrimination) -> (r:
        Address)
        ensures
            r@.discrimination == discrimination,
            r@.kind == KindV::Single(key.bytes@),
            key.wf() ==> r.wf(),
    {
        Address {
            discrimination,
            kind: Kind::Single(PublicKey { bytes: dup_bytes(&key.bytes) }),
        }
    }

    /// A group address spending through the first key and delegating to
    /// the second.
    pub fn delegation_from_public_key(
        key: &PublicKey,
        delegation: &PublicKey,
        discrimination: AddressDiscrimination,
    ) -> (r: Address)
        ensures
            r@.discrimination == discrimination,
            r@.kind == KindV::Group(key.bytes@, delegation.bytes@),
            key.wf() && delegation.wf() ==> r.wf(),
    {
        Address {
            discrimination,
            kind: Kind::Group(
                PublicKey { bytes: dup_bytes(&key.bytes) },
                PublicKey { bytes: dup_bytes(&delegation.bytes) },
            ),
        }
    }

    /// An account address owned by the given key.
    pub fn account_from_public_key(key: &PublicKey, discrimination: AddressDiscrimination) -> (r:
        Address)
        ensures
            r@.discrimination == discrimination,
            r@.kind == KindV::Account(key.bytes@),
            key.wf() ==> r.wf(),
    {
        Address {
            discrimination,
            kind: Kind::Account(PublicKey { bytes: dup_bytes(&key.bytes) }),
        }
    }

    /// A multisig address under the given 32-byte merkle root.
    pub fn multisig_from_merkle_root(
        merkle_root: &[u8],
        discrimination: AddressDiscrimination,
    ) -> (r: Result<Address, CoreError>)
        ensures
            match r {
                Ok(a) => {
                    &&& merkle_root@.len() == 32
                    &&& a@.discrimination == discrimination
                    &&& a@.kind == KindV::Multisig(merkle_root@)
                    &&& a.wf()
                },
                Err(e) => merkle_root@.len() != 32 && e == CoreError::MalformedInput,
            },
    {
        if merkle_root.len() == 32 {
            let n = merkle_root.len();
            let root = copy_range(merkle_root, 0, n);
            proof {
                assert(merkle_root@.subrange(0, n as int) =~= merkle_root@);
            }
            Ok(Address { discrimination, kind: Kind::Multisig(root) })
        } else {
            Err(CoreError::MalformedInput)
        }
    }

    /// The discrimination of the address.
    pub fn get_discrimination(&self) -> (r: AddressDiscrimination)
        ensures
            r == self@.discrimination,
    {
        self.discrimination
    }

    /// The kind of the address, without its payload.
    pub fn get_kind(&self) -> (r: AddressKind)
        ensures
            match self@.kind {
                KindV::Single(_) => r == AddressKind::Single,
                KindV::Group(_, _) => r == AddressKind::Group,
                KindV::Account(_) => r == AddressKind::Account,
                KindV::Multisig(_) => r == AddressKind::Multisig,
            },
    {
        match &self.kind {
            Kind::Single(_) => AddressKind::Single,
            Kind::Group(_, _) => AddressKind::Group,
            Kind::Account(_) => AddressKind::Account,
            Kind::Multisig(_) => AddressKind::Multisig,
        }
    }

    /// The single-address form, exactly when the address is single.
    pub fn to_single_address(&self) -> (r: Option<SingleAddress>)
        ensures
            match self@.kind {
                KindV::Single(pk) => r matches Some(sa) && sa.discrimination
                    == self@.discrimination && sa.spending_key.bytes@ == pk,
                _ => r is None,
            },
    {
        match &self.kind {
            Kind::Single(pk) => Some(
                SingleAddress {
                    discrimination: self.discrimination,
                    spending_key: PublicKey { bytes: dup_bytes(&pk.bytes) },
                },
            ),
            _ => None,
        }
    }

    /// The group-address form, exactly when the address is a group.
    pub fn to_group_address(&self) -> (r: Option<GroupAddress>)
        ensures
            match self@.kind {
                KindV::Group(sp, ac) => r matches Some(ga) && ga.discrimination
                    == self@.discrimination && ga.spending_key.bytes@ == sp
                    && ga.account_key.bytes@ == ac,
                _ => r is None,
            },
    {
        match &self.kind {
            Kind::Group(sp, ac) => Some(
                GroupAddress {
                    discrimination: self.discrimination,
                    spending_key: PublicKey { bytes: dup_bytes(&sp.bytes) },
                    account_key: PublicKey { bytes: dup_bytes(&ac.bytes) },
                },
            ),
            _ => None,
        }
    }

    /// The account-address form, exactly when the address is an account.
    pub fn to_account_address(&self) -> (r: Option<AccountAddress>)
        ensures
            match self@.kind {
                KindV::Account(pk) => r matches Some(aa) && aa.discrimination
                    == self@.discrimination && aa.account_key.bytes@ == pk,
                _ => r is None,
            },
    {
        match &self.kind {
            Kind::Account(pk) => Some(
                AccountAddress {
                    discrimination: self.discrimination,
                    account_key: PublicKey { bytes: dup_bytes(&pk.bytes) },
                },
            ),
            _ => None,
        }
    }

    /// The multisig-address form, exactly when the address is multisig.
    pub fn to_multisig_address(&self) -> (r: Option<MultisigAddress>)
        ensures
            match self@.kind {
                KindV::Multisig(root) => r matches Some(ma) && ma.discrimination
                    == self@.discrimination && ma.merkle_root@ == root,
                _ => r is None,
            },
    {
        match &self.kind {
            Kind::Multisig(root) => Some(
                MultisigAddress {
                    discrimination: self.discrimination,
                    merkle_root: dup_bytes(root),
                },
            ),
            _ => None,
        }
    }
}

/// Copy an address.
pub(crate) fn dup_address(a: &Address) -> (r: Address)
    ensures
        r@ == a@,
{
    Address {
        discrimination: a.discrimination,
        kind: match &a.kind {
            Kind::Single(pk) => Kind::Single(PublicKey { bytes: dup_bytes(&pk.bytes) }),
            Kind::Group(sp, ac) => Kind::Group(
                PublicKey { bytes: dup_bytes(&sp.bytes) },
                PublicKey { bytes: dup_bytes(&ac.bytes) },
            ),
            Kind::Account(pk) => Kind::Account(PublicKey { bytes: dup_bytes(&pk.bytes) }),
            Kind::Multisig(m) => Kind::Multisig(dup_bytes(m)),
        },
    }
}

/// A single (UTXO, no delegation) address taken apart.
#[derive(Clone, Debug)]
pub struct SingleAddress {
    pub discrimination: AddressDiscrimination,
    pub spending_key: PublicKey,
}

impl SingleAddress {
    /// The spending key.
    pub fn get_spending_key(&self) -> (r: PublicKey)
        ensures
            r.bytes@ == self.spending_key.bytes@,
    {
        PublicKey { bytes: dup_bytes(&self.spending_key.bytes) }
    }

    /// The same address in its general form.
    pub fn to_base_address(&self) -> (r: Address)
        ensures
            r@.discrimination == self.discrimination,
            r@.kind == KindV::Single(self.spending_key.bytes@),
    {
        Address {
            discrimination: self.discrimination,
            kind: Kind::Single(PublicKey { bytes: dup_bytes(&self.spending_key.bytes) }),
        }
    }
}

/// A group (UTXO with delegation) address taken apart.
#[derive(Clone, Debug)]
pub struct GroupAddress {
    pub discrimination: AddressDiscrimination,
    pub spending_key: PublicKey,
    pub account_key: PublicKey,
}

impl GroupAddress {
    /// The spending key.
    pub fn get_spending_key(&self) -> (r: PublicKey)
        ensures
            r.bytes@ == self.spending_key.bytes@,
    {
        PublicKey { bytes: dup_bytes(&self.spending_key.bytes) }
    }

    /// The account key delegated to.
    pub fn get_account_key(&self) -> (r: PublicKey)
        ensures
            r.bytes@ == self.account_key.bytes@,
    {
        PublicKey { bytes: dup_bytes(&self.account_key.bytes) }
    }

    /// The same address in its general form.
    pub fn to_base_address(&self) -> (r: Address)
        ensures
            r@.discrimination == self.discrimination,
            r@.kind == KindV::Group(self.spending_key.bytes@, self.account_key.bytes@),
    {
        Address {
            discrimination: self.discrimination,
            kind: Kind::Group(
                PublicKey { bytes: dup_bytes(&self.spending_key.bytes) },
                PublicKey { bytes: dup_bytes(&self.account_key.bytes) },
            ),
        }
    }
}

/// An account address taken apart.
#[derive(Clone, Debug)]
pub struct AccountAddress {
    pub discrimination: AddressDiscrimination,
    pub account_key: PublicKey,
}

impl AccountAddress {
    /// The account key.
    pub fn get_account_key(&self) -> (r: PublicKey)
        ensures
            r.bytes@ == self.account_key.bytes@,
    {
        PublicKey { bytes: dup_bytes(&self.account_key.bytes) }
    }

    /// The same address in its general form.
    pub fn to_base_address(&self) -> (r: Address)
        ensures
            r@.discrimination == self.discrimination,
            r@.kind == KindV::Account(self.account_key.bytes@),
    {
        Address {
            discrimination: self.discrimination,
            kind: Kind::Account(PublicKey { bytes: dup_bytes(&self.account_key.bytes) }),
        }
    }
}

/// A multisig address taken apart.
#[derive(Clone, Debug)]
pub struct MultisigAddress {
    pub discrimination: AddressDiscrimination,
    pub merkle_root: Vec<u8>,
}

impl MultisigAddress {
    /// The merkle root of the multisig declaration.
    pub fn get_merkle_root(&self) -> (r: Vec<u8>)
        ensures
            r@ == self.merkle_root@,
    {
        dup_bytes(&self.merkle_root)
    }

    /// The same address in its general form.
    pub fn to_base_address(&self) -> (r: Result<Address, CoreError>)
        ensures
            match r {
                Ok(a) => {
                    &&& self.merkle_root@.len() == 32
                    &&& a@.discrimination == self.discrimination
                    &&& a@.kind == KindV::Multisig(self.merkle_root@)
                },
                Err(e) => self.merkle_root@.len() != 32 && e == CoreError::MalformedInput,
            },
    {
        let root = self.get_merkle_root();
        Address::multisig_from_merkle_root(root.as_slice(), self.discrimination)
    }
}

} // verus!

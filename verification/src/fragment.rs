//! Fragments: the messages a block carries.  A fragment wraps a signed
//! transaction (with whatever certificate payload it has), a legacy
//! UTXO declaration, or another ledger message kept as raw bytes.  Its
//! identifier is the digest of its canonical bytes.

use vstd::prelude::*;

use crate::bytes::be_bytes;
use crate::bytes::be_val;
use crate::bytes::copy_range;
use crate::bytes::lemma_be_bytes_len;
use crate::bytes::lemma_be_round_trip;
use crate::bytes::push_be;
use crate::bytes::push_bytes;
use crate::bytes::read_u64_be;
use crate::codec::hex_encode;
use crate::codec::hex_of;
use crate::error::CoreError;
use crate::keys::dup_bytes;
use crate::primitives::FragmentId;
use crate::transaction::Transaction;
use crate::transaction::TxV;
use crate::transaction::dup_tx;
use crate::transaction::spec_tx_decode;
use crate::transaction::tx_bytes;
use crate::transaction::wf_tx;
use crate::value::Value;

verus! {

/// One declared legacy unspent output: an opaque legacy address and its
/// value.
#[derive(Clone, Debug)]
pub struct OldUtxoEntry {
    pub address: Vec<u8>,
    pub value: Value,
}

/// The mathematical model of a legacy entry.
pub ghost struct OldEntryV {
    pub address: Seq<u8>,
    pub value: u64,
}

impl View for OldUtxoEntry {
    type V = OldEntryV;

    open spec fn view(&self) -> OldEntryV {
        OldEntryV { address: self.address@, value: self.value.amount }
    }
}

/// The models of an entry vector, in order.
pub open spec fn old_entries_of(s: Seq<OldUtxoEntry>) -> Seq<OldEntryV> {
    Seq::new(s.len(), |i: int| s[i]@)
}

/// A legacy declaration: address and value pairs carried without any
/// witness.
#[derive(Clone, Debug)]
pub struct OldUtxoDeclaration {
    pub entries: Vec<OldUtxoEntry>,
}

impl OldUtxoDeclaration {
    /// Is the declaration well formed: few enough entries to count in
    /// one byte, each address short enough to measure in two?
    pub open spec fn wf(&self) -> bool {
        wf_old_entries(old_entries_of(self.entries@))
    }

    /// How many entries the declaration holds.
    pub fn size(&self) -> (r: usize)
        ensures
            r == self.entries@.len(),
    {
        self.entries.len()
    }

    /// The lowercase hex rendering of the legacy address at `index`.
    pub fn get_address(&self, index: usize) -> (r: String)
        requires
            index < self.entries@.len(),
        ensures
            r@ == hex_of(self.entries@[index as int]@.address),
    {
        hex_encode(self.entries[index].address.as_slice())
    }

    /// The value declared at `index`.
    pub fn get_value(&self, index: usize) -> (r: Value)
        requires
            index < self.entries@.len(),
        ensures
            r.amount == self.entries@[index as int]@.value,
    {
        Value { amount: self.entries[index].value.amount }
    }
}

/// Is the entry list well formed?
pub open spec fn wf_old_entries(es: Seq<OldEntryV>) -> bool {
    &&& es.len() <= 255
    &&& forall|i: int| 0 <= i < es.len() ==> (#[trigger] es[i]).address.len() <= 65535
}

/// The canonical bytes of one legacy entry: a two-byte address length,
/// the address, then the 8-byte value.
pub open spec fn old_entry_bytes(e: OldEntryV) -> Seq<u8> {
    be_bytes(e.address.len() as int, 2) + e.address + be_bytes(e.value as int, 8)
}

/// The canonical bytes of an entry list, in order.
pub open spec fn old_entries_bytes(es: Seq<OldEntryV>) -> Seq<u8>
    decreases es.len(),
{
    if es.len() == 0 {
        Seq::empty()
    } else {
        old_entry_bytes(es.first()) + old_entries_bytes(es.drop_first())
    }
}

/// Appending an entry appends its bytes.
pub proof fn lemma_old_entries_bytes_snoc(es: Seq<OldEntryV>, e: OldEntryV)
    ensures
        old_entries_bytes(es.push(e)) == old_entries_bytes(es) + old_entry_bytes(e),
    decreases es.len(),
{
    if es.len() == 0 {
        let p = es.push(e);
        assert(p.first() == e);
        assert(p.drop_first() =~= Seq::<OldEntryV>::empty());
        assert(old_entries_bytes(p) == old_entry_bytes(p.first()) + old_entries_bytes(
            p.drop_first(),
        ));
        assert(old_entries_bytes(p) =~= old_entries_bytes(es) + old_entry_bytes(e));
    } else {
        assert(es.push(e).first() == es.first());
        assert(es.push(e).drop_first() =~= es.drop_first().push(e));
        lemma_old_entries_bytes_snoc(es.drop_first(), e);
        assert(old_entries_bytes(es.push(e)) =~= old_entries_bytes(es) + old_entry_bytes(e));
    }
}

/// The entry list denoted by the whole of `s`, if `s` is exactly `n`
/// encodings.
pub open spec fn spec_old_entries_decode(s: Seq<u8>, n: nat) -> Option<Seq<OldEntryV>>
    decreases n,
{
    if n == 0 {
        if s.len() == 0 {
            Some(Seq::empty())
        } else {
            None
        }
    } else if s.len() < 2 {
        None
    } else {
        let alen = be_val(s.subrange(0, 2));
        if s.len() < 2 + alen + 8 {
            None
        } else {
            match spec_old_entries_decode(s.skip(2 + alen + 8), (n - 1) as nat) {
                Some(es) => Some(
                    seq![
                        OldEntryV {
                            address: s.subrange(2, 2 + alen),
                            value: be_val(s.subrange(2 + alen, 2 + alen + 8)) as u64,
                        },
                    ] + es,
                ),
                None => None,
            }
        }
    }
}

/// Decoding inverts encoding for every well-formed entry list.
pub proof fn lemma_old_entries_round_trip(es: Seq<OldEntryV>)
    requires
        wf_old_entries(es),
    ensures
        spec_old_entries_decode(old_entries_bytes(es), es.len()) == Some(es),
    decreases es.len(),
{
    if es.len() > 0 {
        let e = es.first();
        let s = old_entries_bytes(es);
        let alen = e.address.len() as int;
        lemma_be_bytes_len(alen, 2);
        lemma_be_bytes_len(e.value as int, 8);
        assert(s.subrange(0, 2) =~= be_bytes(alen, 2));
        assert(crate::bytes::pow256(2) == 65536) by {
            reveal_with_fuel(crate::bytes::pow256, 3);
        }
        lemma_be_round_trip(alen, 2);
        assert(s.subrange(2, 2 + alen) =~= e.address);
        assert(s.subrange(2 + alen, 2 + alen + 8) =~= be_bytes(e.value as int, 8));
        crate::bytes::lemma_pow256_8();
        lemma_be_round_trip(e.value as int, 8);
        assert(s.skip(2 + alen + 8) =~= old_entries_bytes(es.drop_first()));
        assert(wf_old_entries(es.drop_first())) by {
            assert(forall|i: int|
                0 <= i < es.drop_first().len() ==> #[trigger] es.drop_first()[i] == es[i + 1]);
        }
        lemma_old_entries_round_trip(es.drop_first());
        assert(seq![e] + es.drop_first() =~= es);
    }
}

/// Encoding inverts decoding for legacy entry lists: what decodes
/// re-encodes to exactly the whole input, and is well formed but for
/// its count, which the caller carries.
pub proof fn lemma_old_entries_decode_inverts(s: Seq<u8>, n: nat)
    ensures
        match spec_old_entries_decode(s, n) {
            Some(es) => old_entries_bytes(es) == s && es.len() == n && forall|i: int|
                0 <= i < es.len() ==> (#[trigger] es[i]).address.len() <= 65535,
            None => true,
        },
    decreases n,
{
    match spec_old_entries_decode(s, n) {
        Some(es) => {
            if n > 0 {
                let alen = be_val(s.subrange(0, 2));
                crate::bytes::lemma_be_val_bounds(s.subrange(0, 2));
                assert(crate::bytes::pow256(2) == 65536) by {
                    reveal_with_fuel(crate::bytes::pow256, 3);
                }
                crate::bytes::lemma_be_bytes_of_val(s.subrange(0, 2));
                crate::bytes::lemma_be_val_bounds(s.subrange(2 + alen, 2 + alen + 8));
                crate::bytes::lemma_pow256_8();
                crate::bytes::lemma_be_bytes_of_val(s.subrange(2 + alen, 2 + alen + 8));
                lemma_old_entries_decode_inverts(s.skip(2 + alen + 8), (n - 1) as nat);
                let q = spec_old_entries_decode(s.skip(2 + alen + 8), (n - 1) as nat).unwrap();
                let e = es.first();
                assert(es.drop_first() =~= q);
                assert(e.address.len() == alen);
                assert(old_entry_bytes(e) =~= s.subrange(0, 2 + alen + 8));
                assert(old_entries_bytes(es) == old_entry_bytes(e) + old_entries_bytes(q));
                assert(old_entry_bytes(e) + old_entries_bytes(q) =~= s.subrange(
                    0,
                    2 + alen + 8,
                ) + s.skip(2 + alen + 8));
                assert(s.subrange(0, 2 + alen + 8) + s.skip(2 + alen + 8) =~= s);
                assert forall|i: int| 0 <= i < es.len() implies (#[trigger] es[i]).address.len()
                    <= 65535 by {
                    if i > 0 {
                        assert(es[i] == q[i - 1]);
                    }
                }
            }
        },
        None => {},
    }
}

/// Encoding inverts decoding for fragments: every byte string that
/// decodes is the encoding of the fragment it decodes to, and that
/// fragment is well formed.  With the round trip above, the fragment
/// codec is a bijection.
pub proof fn lemma_fragment_decode_inverts(s: Seq<u8>)
    ensures
        match spec_fragment_decode(s) {
            Some(f) => fragment_bytes(f) == s && wf_fragment(f),
            None => true,
        },
{
    match spec_fragment_decode(s) {
        Some(f) => {
            match f {
                FragmentV::Initial(_) => {
                    assert(fragment_bytes(f) =~= s);
                },
                FragmentV::OldUtxoDeclaration(es) => {
                    lemma_old_entries_decode_inverts(s.skip(2), s[1] as nat);
                    assert(fragment_bytes(f) =~= s);
                },
                FragmentV::Transaction(t) => {
                    crate::transaction::lemma_tx_decode_inverts(s.skip(1));
                    assert(fragment_bytes(f) =~= s);
                },
                FragmentV::UpdateProposal(_) => {
                    assert(fragment_bytes(f) =~= s);
                },
                FragmentV::UpdateVote(_) => {
                    assert(fragment_bytes(f) =~= s);
                },
            }
        },
        None => {},
    }
}

/// A ledger message as carried in a block.
#[derive(Clone, Debug)]
pub enum Fragment {
    /// The opening configuration of a chain, kept as raw bytes.
    Initial(Vec<u8>),
    /// A legacy UTXO declaration.
    OldUtxoDeclaration(OldUtxoDeclaration),
    /// A signed transaction, with whatever certificate payload it has.
    Transaction(Transaction),
    /// A parameter-change proposal, kept as raw bytes.
    UpdateProposal(Vec<u8>),
    /// A vote on a parameter change, kept as raw bytes.
    UpdateVote(Vec<u8>),
}

/// The mathematical model of a fragment.
pub ghost enum FragmentV {
    Initial(Seq<u8>),
    OldUtxoDeclaration(Seq<OldEntryV>),
    Transaction(TxV),
    UpdateProposal(Seq<u8>),
    UpdateVote(Seq<u8>),
}

impl View for Fragment {
    type V = FragmentV;

    open spec fn view(&self) -> FragmentV {
        match self {
            Fragment::Initial(b) => FragmentV::Initial(b@),
            Fragment::OldUtxoDeclaration(d) => FragmentV::OldUtxoDeclaration(
                old_entries_of(d.entries@),
            ),
            Fragment::Transaction(t) => FragmentV::Transaction(t@),
            Fragment::UpdateProposal(b) => FragmentV::UpdateProposal(b@),
            Fragment::UpdateVote(b) => FragmentV::UpdateVote(b@),
        }
    }
}

/// Is the fragment model well formed?
pub open spec fn wf_fragment(f: FragmentV) -> bool {
    match f {
        FragmentV::Initial(_) => true,
        FragmentV::OldUtxoDeclaration(es) => wf_old_entries(es),
        FragmentV::Transaction(t) => wf_tx(t),
        FragmentV::UpdateProposal(_) => true,
        FragmentV::UpdateVote(_) => true,
    }
}

/// The canonical bytes of a fragment: a kind tag, then the payload.
/// A legacy declaration carries its entry count first.
pub open spec fn fragment_bytes(f: FragmentV) -> Seq<u8> {
    match f {
        FragmentV::Initial(b) => seq![0u8] + b,
        FragmentV::OldUtxoDeclaration(es) => seq![1u8, es.len() as u8] + old_entries_bytes(es),
        FragmentV::Transaction(t) => seq![2u8] + tx_bytes(t),
        FragmentV::UpdateProposal(b) => seq![3u8] + b,
        FragmentV::UpdateVote(b) => seq![4u8] + b,
    }
}

/// The fragment denoted by `s`, if `s` is exactly one well-formed
/// encoding.
pub open spec fn spec_fragment_decode(s: Seq<u8>) -> Option<FragmentV> {
    if s.len() < 1 {
        None
    } else if s[0] == 0 {
        Some(FragmentV::Initial(s.skip(1)))
    } else if s[0] == 1 {
        if s.len() < 2 {
            None
        } else {
            match spec_old_entries_decode(s.skip(2), s[1] as nat) {
                Some(es) => Some(FragmentV::OldUtxoDeclaration(es)),
                None => None,
            }
        }
    } else if s[0] == 2 {
        match spec_tx_decode(s.skip(1)) {
            Some(t) => Some(FragmentV::Transaction(t)),
            None => None,
        }
    } else if s[0] == 3 {
        Some(FragmentV::UpdateProposal(s.skip(1)))
    } else if s[0] == 4 {
        Some(FragmentV::UpdateVote(s.skip(1)))
    } else {
        None
    }
}

/// Decoding inverts encoding for every well-formed fragment.
pub proof fn lemma_fragment_round_trip(f: FragmentV)
    requires
        wf_fragment(f),
    ensures
        spec_fragment_decode(fragment_bytes(f)) == Some(f),
{
    let s = fragment_bytes(f);
    match f {
        FragmentV::Initial(b) => {
            assert(s.skip(1) =~= b);
        },
        FragmentV::OldUtxoDeclaration(es) => {
            assert(s.skip(2) =~= old_entries_bytes(es));
            lemma_old_entries_round_trip(es);
        },
        FragmentV::Transaction(t) => {
            assert(s.skip(1) =~= tx_bytes(t));
            crate::transaction::lemma_tx_round_trip(t);
        },
        FragmentV::UpdateProposal(b) => {
            assert(s.skip(1) =~= b);
        },
        FragmentV::UpdateVote(b) => {
            assert(s.skip(1) =~= b);
        },
    }
}

/// Copy a legacy declaration.
pub(crate) fn dup_old_decl(d: &OldUtxoDeclaration) -> (r: OldUtxoDeclaration)
    ensures
        old_entries_of(r.entries@) == old_entries_of(d.entries@),
{
    let mut entries: Vec<OldUtxoEntry> = Vec::new();
    let mut i: usize = 0;
    while i < d.entries.len()
        invariant
            0 <= i <= d.entries@.len(),
            entries@.len() == i,
            forall|k: int| 0 <= k < i ==> #[trigger] entries@[k]@ == d.entries@[k]@,
        decreases d.entries@.len() - i,
    {
        entries.push(
            OldUtxoEntry {
                address: dup_bytes(&d.entries[i].address),
                value: Value { amount: d.entries[i].value.amount },
            },
        );
        i = i + 1;
    }
    let r = OldUtxoDeclaration { entries };
    proof {
        assert(old_entries_of(r.entries@) =~= old_entries_of(d.entries@));
    }
    r
}

/// Copy a fragment.
pub(crate) fn dup_fragment(f: &Fragment) -> (r: Fragment)
    ensures
        r@ == f@,
{
    match f {
        Fragment::Initial(b) => Fragment::Initial(dup_bytes(b)),
        Fragment::OldUtxoDeclaration(d) => Fragment::OldUtxoDeclaration(dup_old_decl(d)),
        Fragment::Transaction(t) => Fragment::Transaction(dup_tx(t)),
        Fragment::UpdateProposal(b) => Fragment::UpdateProposal(dup_bytes(b)),
        Fragment::UpdateVote(b) => Fragment::UpdateVote(dup_bytes(b)),
    }
}

impl Fragment {
    /// Is the fragment well formed?
    pub open spec fn wf(&self) -> bool {
        wf_fragment(self@)
    }

    /// The fragment carrying the given transaction.
    pub fn from_transaction(tx: &Transaction) -> (r: Fragment)
        ensures
            r@ == FragmentV::Transaction(tx@),
    {
        Fragment::Transaction(dup_tx(tx))
    }

    /// The carried transaction, exactly when the fragment carries one.
    pub fn get_transaction(&self) -> (r: Result<Transaction, CoreError>)
        ensures
            match self@ {
                FragmentV::Transaction(t) => r matches Ok(x) && x@ == t,
                _ => r matches Err(e) && e == CoreError::WrongVariant,
            },
    {
        match self {
            Fragment::Transaction(t) => Ok(dup_tx(t)),
            _ => Err(CoreError::WrongVariant),
        }
    }

    /// The carried legacy declaration, exactly when the fragment is one.
    pub fn get_old_utxo_declaration(&self) -> (r: Result<OldUtxoDeclaration, CoreError>)
        ensures
            match self@ {
                FragmentV::OldUtxoDeclaration(es) => r matches Ok(d) && old_entries_of(
                    d.entries@,
                ) == es,
                _ => r matches Err(e) && e == CoreError::WrongVariant,
            },
    {
        match self {
            Fragment::OldUtxoDeclaration(d) => Ok(dup_old_decl(d)),
            _ => Err(CoreError::WrongVariant),
        }
    }

    /// The canonical bytes of the fragment.
    pub fn as_bytes(&self) -> (r: Result<Vec<u8>, CoreError>)
        requires
            self.wf(),
        ensures
            r matches Ok(v) && v@ == fragment_bytes(self@),
    {
        let mut v: Vec<u8> = Vec::new();
        match self {
            Fragment::Initial(b) => {
                v.push(0);
                push_bytes(&mut v, b.as_slice());
            },
            Fragment::OldUtxoDeclaration(d) => {
                v.push(1);
                let n = d.entries.len();
                v.push(n as u8);
                let ghost head = v@;
                let mut i: usize = 0;
                while i < n
                    invariant
                        0 <= i <= n,
                        n == d.entries@.len(),
                        wf_old_entries(old_entries_of(d.entries@)),
                        v@ =~= head + old_entries_bytes(
                            old_entries_of(d.entries@).subrange(0, i as int),
                        ),
                    decreases n - i,
                {
                    proof {
                        assert(old_entries_of(d.entries@).subrange(0, i as int).push(
                            old_entries_of(d.entries@)[i as int],
                        ) =~= old_entries_of(d.entries@).subrange(0, i + 1));
                        lemma_old_entries_bytes_snoc(
                            old_entries_of(d.entries@).subrange(0, i as int),
                            old_entries_of(d.entries@)[i as int],
                        );
                        assert(old_entries_of(d.entries@)[i as int].address.len() <= 65535);
                    }
                    push_be(&mut v, d.entries[i].address.len() as u128, 2);
                    push_bytes(&mut v, d.entries[i].address.as_slice());
                    push_be(&mut v, d.entries[i].value.amount as u128, 8);
                    i = i + 1;
                }
                proof {
                    assert(old_entries_of(d.entries@).subrange(0, n as int) =~= old_entries_of(
                        d.entries@,
                    ));
                }
            },
            Fragment::Transaction(t) => {
                v.push(2);
                let tb = t.as_bytes();
                push_bytes(&mut v, tb.as_slice());
            },
            Fragment::UpdateProposal(b) => {
                v.push(3);
                push_bytes(&mut v, b.as_slice());
            },
            Fragment::UpdateVote(b) => {
                v.push(4);
                push_bytes(&mut v, b.as_slice());
            },
        }
        proof {
            assert(v@ =~= fragment_bytes(self@));
        }
        Ok(v)
    }

    /// Read a fragment from its canonical bytes.
    pub fn from_bytes(bytes: &[u8]) -> (r: Result<Fragment, CoreError>)
        ensures
            match r {
                Ok(f) => spec_fragment_decode(bytes@) == Some(f@) && f.wf(),
                Err(e) => spec_fragment_decode(bytes@) is None && e
                    == CoreError::MalformedInput,
            },
    {
        if bytes.len() < 1 {
            return Err(CoreError::MalformedInput);
        }
        let tag = bytes[0];
        let n = bytes.len();
        if tag == 0 {
            let b = copy_range(bytes, 1, n - 1);
            proof {
                assert(b@ =~= bytes@.skip(1));
            }
            Ok(Fragment::Initial(b))
        } else if tag == 1 {
            if n < 2 {
                return Err(CoreError::MalformedInput);
            }
            let count = bytes[1];
            let body = vstd::slice::slice_subrange(bytes, 2, n);
            proof {
                assert(body@ =~= bytes@.skip(2));
            }
            match old_entries_from_bytes(body, count) {
                Ok(entries) => Ok(Fragment::OldUtxoDeclaration(OldUtxoDeclaration { entries })),
                Err(e) => Err(e),
            }
        } else if tag == 2 {
            let body = vstd::slice::slice_subrange(bytes, 1, n);
            proof {
                assert(body@ =~= bytes@.skip(1));
            }
            match Transaction::from_bytes(body) {
                Ok(t) => Ok(Fragment::Transaction(t)),
                Err(e) => Err(e),
            }
        } else if tag == 3 {
            let b = copy_range(bytes, 1, n - 1);
            proof {
                assert(b@ =~= bytes@.skip(1));
            }
            Ok(Fragment::UpdateProposal(b))
        } else if tag == 4 {
            let b = copy_range(bytes, 1, n - 1);
            proof {
                assert(b@ =~= bytes@.skip(1));
            }
            Ok(Fragment::UpdateVote(b))
        } else {
            Err(CoreError::MalformedInput)
        }
    }

    /// Does the fragment carry the opening configuration?
    pub fn is_initial(&self) -> (r: bool)
        ensures
            r == (self@ matches FragmentV::Initial(_)),
    {
        match self {
            Fragment::Initial(_) => true,
            _ => false,
        }
    }

    /// Does the fragment carry a plain transaction, with no certificate?
    pub fn is_transaction(&self) -> (r: bool)
        ensures
            r == (self@ matches FragmentV::Transaction(t) && t.extra is None),
    {
        match self {
            Fragment::Transaction(t) => t.extra.is_none(),
            _ => false,
        }
    }

    /// Does the fragment carry an owner stake delegation?
    pub fn is_owner_stake_delegation(&self) -> (r: bool)
        ensures
            r == (self@ matches FragmentV::Transaction(t) && t.extra matches Some(
                crate::certificate::CertificateV::OwnerStakeDelegation(_),
            )),
    {
        match self {
            Fragment::Transaction(t) => match &t.extra {
                Some(crate::certificate::Certificate::OwnerStakeDelegation(_)) => true,
                _ => false,
            },
            _ => false,
        }
    }

    /// Does the fragment carry a stake delegation?
    pub fn is_stake_delegation(&self) -> (r: bool)
        ensures
            r == (self@ matches FragmentV::Transaction(t) && t.extra matches Some(
                crate::certificate::CertificateV::StakeDelegation(_),
            )),
    {
        match self {
            Fragment::Transaction(t) => match &t.extra {
                Some(crate::certificate::Certificate::StakeDelegation(_)) => true,
                _ => false,
            },
            _ => false,
        }
    }

    /// Does the fragment carry a pool registration?
    pub fn is_pool_registration(&self) -> (r: bool)
        ensures
            r == (self@ matches FragmentV::Transaction(t) && t.extra matches Some(
                crate::certificate::CertificateV::PoolRegistration(_),
            )),
    {
        match self {
            Fragment::Transaction(t) => match &t.extra {
                Some(crate::certificate::Certificate::PoolRegistration(_)) => true,
                _ => false,
            },
            _ => false,
        }
    }

    /// Does the fragment carry a pool retirement?
    pub fn is_pool_retirement(&self) -> (r: bool)
        ensures
            r == (self@ matches FragmentV::Transaction(t) && t.extra matches Some(
                crate::certificate::CertificateV::PoolRetirement(_),
            )),
    {
        match self {
            Fragment::Transaction(t) => match &t.extra {
                Some(crate::certificate::Certificate::PoolRetirement(_)) => true,
                _ => false,
            },
            _ => false,
        }
    }

    /// Does the fragment carry a pool update?
    pub fn is_pool_update(&self) -> (r: bool)
        ensures
            r == (self@ matches FragmentV::Transaction(t) && t.extra matches Some(
                crate::certificate::CertificateV::PoolUpdate(_),
            )),
    {
        match self {
            Fragment::Transaction(t) => match &t.extra {
                Some(crate::certificate::Certificate::PoolUpdate(_)) => true,
                _ => false,
            },
            _ => false,
        }
    }

    /// Does the fragment carry a legacy declaration?
    pub fn is_old_utxo_declaration(&self) -> (r: bool)
        ensures
            r == (self@ matches FragmentV::OldUtxoDeclaration(_)),
    {
        match self {
            Fragment::OldUtxoDeclaration(_) => true,
            _ => false,
        }
    }

    /// Does the fragment carry a parameter-change proposal?
    pub fn is_update_proposal(&self) -> (r: bool)
        ensures
            r == (self@ matches FragmentV::UpdateProposal(_)),
    {
        match self {
            Fragment::UpdateProposal(_) => true,
            _ => false,
        }
    }

    /// Does the fragment carry a vote on a parameter change?
    pub fn is_update_vote(&self) -> (r: bool)
        ensures
            r == (self@ matches FragmentV::UpdateVote(_)),
    {
        match self {
            Fragment::UpdateVote(_) => true,
            _ => false,
        }
    }

    /// The content-addressed identifier: the digest of the canonical
    /// fragment bytes.
    pub fn id(&self) -> (r: FragmentId)
        requires
            self.wf(),
        ensures
            r.bytes@ == crate::crypto::blake2b256_of(fragment_bytes(self@)),
            r.wf(),
    {
        let v = match self.as_bytes() {
            Ok(v) => v,
            Err(_) => Vec::new(),
        };
        FragmentId::calculate(v.as_slice())
    }
}

/// Read `n` legacy entries occupying the whole of `b`.
fn old_entries_from_bytes(b: &[u8], n: u8) -> (r: Result<Vec<OldUtxoEntry>, CoreError>)
    ensures
        match r {
            Ok(es) => spec_old_entries_decode(b@, n as nat) == Some(old_entries_of(es@))
                && es@.len() == n && wf_old_entries(old_entries_of(es@)),
            Err(e) => spec_old_entries_decode(b@, n as nat) is None && e
                == CoreError::MalformedInput,
        },
    decreases n,
{
    if n == 0 {
        if b.len() == 0 {
            let empty: Vec<OldUtxoEntry> = Vec::new();
            proof {
                assert(old_entries_of(empty@) =~= Seq::<OldEntryV>::empty());
            }
            return Ok(empty);
        }
        return Err(CoreError::MalformedInput);
    }
    if b.len() < 2 {
        return Err(CoreError::MalformedInput);
    }
    let alen_wide = crate::bytes::read_be(b, 0, 2);
    proof {
        crate::bytes::lemma_be_val_bounds(b@.subrange(0, 2));
        assert(crate::bytes::pow256(2) == 65536) by {
            reveal_with_fuel(crate::bytes::pow256, 3);
        }
    }
    let alen = alen_wide as usize;
    if b.len() < 2 + alen + 8 {
        return Err(CoreError::MalformedInput);
    }
    let address = copy_range(b, 2, alen);
    let value = read_u64_be(b, 2 + alen);
    let rest = vstd::slice::slice_subrange(b, 2 + alen + 8, b.len());
    proof {
        assert(rest@ =~= b@.skip(2 + alen + 8));
        assert(address@ =~= b@.subrange(2, 2 + alen));
    }
    match old_entries_from_bytes(rest, n - 1) {
        Ok(mut es) => {
            let e = OldUtxoEntry { address, value: Value { amount: value } };
            let ghost prev = es@;
            es.insert(0, e);
            proof {
                assert(old_entries_of(es@) =~= seq![e@] + old_entries_of(prev));
                assert forall|k: int| 0 <= k < es@.len() implies (#[trigger] old_entries_of(
                    es@,
                )[k]).address.len() <= 65535 by {
                    if k > 0 {
                        assert(old_entries_of(es@)[k] == old_entries_of(prev)[k - 1]);
                    }
                }
            }
            Ok(es)
        },
        Err(e) => Err(e),
    }
}

/// An ordered collection of fragments.
#[derive(Clone, Debug)]
pub struct Fragments {
    pub items: Vec<Fragment>,
}

impl Fragments {
    /// The empty collection.
    pub fn new() -> (r: Fragments)
        ensures
            r.items@.len() == 0,
    {
        Fragments { items: Vec::new() }
    }

    /// How many fragments the collection holds.
    pub fn size(&self) -> (r: usize)
        ensures
            r == self.items@.len(),
    {
        self.items.len()
    }

    /// The fragment at `index`.
    pub fn get(&self, index: usize) -> (r: Fragment)
        requires
            index < self.items@.len(),
        ensures
            r@ == self.items@[index as int]@,
    {
        dup_fragment(&self.items[index])
    }

    /// Append a fragment, keeping the order of insertion.
    pub fn add(&mut self, item: &Fragment)
        ensures
            final(self).items@.len() == old(self).items@.len() + 1,
            final(self).items@.last()@ == item@,
            forall|i: int|
                0 <= i < old(self).items@.len() ==> final(self).items@[i]
                    == old(self).items@[i],
    {
        self.items.push(dup_fragment(item));
    }
}

} // verus!

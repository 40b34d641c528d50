//! The transaction data model: inputs, outputs, witnesses and the
//! transaction itself with its canonical encoding and sign-data digest.
//!
//! An input is a UTXO pointer or an account withdrawal and always
//! carries exactly one value.  A witness authorizes one input; the
//! witnesses stand in the same order as the inputs they authorize.

use vstd::prelude::*;

use crate::account::Account;
use crate::account::AccountIdentifier;
use crate::account::account_id_bytes;
use crate::address::Address;
use crate::address::AddressV;
use crate::address::addr_bytes;
use crate::address::spec_addr_decode;
use crate::address::wf_address;
use crate::bytes::be_bytes;
use crate::bytes::be_val;
use crate::bytes::copy_range;
use crate::bytes::lemma_be_bytes_len;
use crate::bytes::lemma_be_round_trip;
use crate::bytes::push_be;
use crate::bytes::push_bytes;
use crate::bytes::read_u64_be;
use crate::crypto;
use crate::crypto::ed25519_sign_of;
use crate::crypto::extended_public_of;
use crate::crypto::extended_sign_of;
use crate::error::CoreError;
use crate::keys::AccountWitness;
use crate::keys::Bip32PrivateKey;
use crate::keys::Bip32PublicKey;
use crate::keys::LegacyDaedalusPrivateKey;
use crate::keys::LegacyUtxoWitness;
use crate::keys::PrivateKey;
use crate::keys::UtxoWitness;
use crate::keys::dup_bytes;
use crate::primitives::FragmentId;
use crate::primitives::SpendingCounter;
use crate::primitives::TransactionSignDataHash;
use crate::value::Value;

verus! {

/// The two input kinds.
#[derive(Clone, Copy, Debug, PartialEq, Eq, Structural)]
pub enum InputKind {
    Account,
    Utxo,
}

/// A pointer to an unspent output: the fragment that produced it, the
/// output's index there, and the value the spender expects to read,
/// which guards against withdrawing another amount than intended.
#[derive(Clone, Debug)]
pub struct UtxoPointer {
    pub fragment_id: FragmentId,
    pub output_index: u8,
    pub value: Value,
}

/// The mathematical model of a UTXO pointer.
pub ghost struct UtxoPointerV {
    pub fragment: Seq<u8>,
    pub index: u8,
    pub value: u64,
}

impl View for UtxoPointer {
    type V = UtxoPointerV;

    open spec fn view(&self) -> UtxoPointerV {
        UtxoPointerV {
            fragment: self.fragment_id.bytes@,
            index: self.output_index,
            value: self.value.amount,
        }
    }
}

impl UtxoPointer {
    /// Is the pointer well formed?  The index must stay below the
    /// account marker byte so that inputs stay distinguishable.
    pub open spec fn wf(&self) -> bool {
        self.fragment_id.wf() && self.output_index < 0xff
    }

    /// The pointer to output `output_index` of fragment `fragment_id`,
    /// expecting `value`.
    pub fn new(fragment_id: &FragmentId, output_index: u8, value: &Value) -> (r: UtxoPointer)
        ensures
            r@.fragment == fragment_id.bytes@,
            r@.index == output_index,
            r@.value == value.amount,
    {
        UtxoPointer {
            fragment_id: FragmentId { bytes: dup_bytes(&fragment_id.bytes) },
            output_index,
            value: Value { amount: value.amount },
        }
    }

    /// The output's index.
    pub fn output_index(&self) -> (r: u8)
        ensures
            r == self@.index,
    {
        self.output_index
    }

    /// The fragment that produced the output.
    pub fn fragment_id(&self) -> (r: FragmentId)
        ensures
            r.bytes@ == self@.fragment,
    {
        FragmentId { bytes: dup_bytes(&self.fragment_id.bytes) }
    }

    /// The expected value.
    pub fn value(&self) -> (r: Value)
        ensures
            r.amount == self@.value,
    {
        Value { amount: self.value.amount }
    }
}

/// A source of value: an unspent output or an account withdrawal.
#[derive(Clone, Debug)]
pub enum Input {
    Utxo(UtxoPointer),
    Account(AccountIdentifier, Value),
}

/// The mathematical model of an input.
pub ghost enum InputV {
    Utxo(UtxoPointerV),
    Account(Seq<u8>, u64),
}

impl View for Input {
    type V = InputV;

    open spec fn view(&self) -> InputV {
        match self {
            Input::Utxo(p) => InputV::Utxo(p@),
            Input::Account(id, v) => InputV::Account(id.bytes@, v.amount),
        }
    }
}

/// The value an input carries.
pub open spec fn input_value(i: InputV) -> u64 {
    match i {
        InputV::Utxo(p) => p.value,
        InputV::Account(_, v) => v,
    }
}

/// Is the input model well formed?
pub open spec fn wf_input(i: InputV) -> bool {
    match i {
        InputV::Utxo(p) => p.fragment.len() == 32 && p.index < 0xff,
        InputV::Account(id, _) => id.len() == 32,
    }
}

/// The canonical 41 bytes of an input: the output index or the account
/// marker `0xff`, the 8-byte value, then the 32-byte pointer bytes.
pub open spec fn input_bytes(i: InputV) -> Seq<u8> {
    match i {
        InputV::Utxo(p) => seq![p.index] + be_bytes(p.value as int, 8) + p.fragment,
        InputV::Account(id, v) => seq![0xffu8] + be_bytes(v as int, 8) + id,
    }
}

/// The input denoted by `s`, if `s` is exactly one well-formed encoding.
pub open spec fn spec_input_decode(s: Seq<u8>) -> Option<InputV> {
    if s.len() != 41 {
        None
    } else if s[0] == 0xff {
        Some(InputV::Account(s.subrange(9, 41), be_val(s.subrange(1, 9)) as u64))
    } else {
        Some(
            InputV::Utxo(
                UtxoPointerV {
                    fragment: s.subrange(9, 41),
                    index: s[0],
                    value: be_val(s.subrange(1, 9)) as u64,
                },
            ),
        )
    }
}

/// Decoding inverts encoding for every well-formed input.
pub proof fn lemma_input_round_trip(i: InputV)
    requires
        wf_input(i),
    ensures
        spec_input_decode(input_bytes(i)) == Some(i),
{
    let s = input_bytes(i);
    crate::bytes::lemma_pow256_8();
    match i {
        InputV::Utxo(p) => {
            lemma_be_bytes_len(p.value as int, 8);
            assert(s.subrange(1, 9) =~= be_bytes(p.value as int, 8));
            assert(s.subrange(9, 41) =~= p.fragment);
            lemma_be_round_trip(p.value as int, 8);
        },
        InputV::Account(id, v) => {
            lemma_be_bytes_len(v as int, 8);
            assert(s.subrange(1, 9) =~= be_bytes(v as int, 8));
            assert(s.subrange(9, 41) =~= id);
            lemma_be_round_trip(v as int, 8);
        },
    }
}

/// Encoding inverts decoding: every 41-byte string that decodes is the
/// encoding of the input it decodes to, and that input is well formed.
/// With the round trip above, the input codec is a bijection.
pub proof fn lemma_input_decode_inverts(s: Seq<u8>)
    ensures
        match spec_input_decode(s) {
            Some(i) => input_bytes(i) == s && wf_input(i),
            None => true,
        },
{
    match spec_input_decode(s) {
        Some(i) => {
            crate::bytes::lemma_be_val_bounds(s.subrange(1, 9));
            crate::bytes::lemma_pow256_8();
            crate::bytes::lemma_be_bytes_of_val(s.subrange(1, 9));
            assert(input_value(i) as int == be_val(s.subrange(1, 9)));
            assert(input_bytes(i) =~= s);
        },
        None => {},
    }
}

/// Copy an input.
pub(crate) fn dup_input(i: &Input) -> (r: Input)
    ensures
        r@ == i@,
{
    match i {
        Input::Utxo(p) => Input::Utxo(
            UtxoPointer {
                fragment_id: FragmentId { bytes: dup_bytes(&p.fragment_id.bytes) },
                output_index: p.output_index,
                value: Value { amount: p.value.amount },
            },
        ),
        Input::Account(id, v) => Input::Account(
            AccountIdentifier { bytes: dup_bytes(&id.bytes) },
            Value { amount: v.amount },
        ),
    }
}

impl Input {
    /// Is the input well formed?
    pub open spec fn wf(&self) -> bool {
        wf_input(self@)
    }

    /// The input spending the given unspent output.
    pub fn from_utxo(utxo_pointer: &UtxoPointer) -> (r: Input)
        ensures
            r@ == InputV::Utxo(utxo_pointer@),
    {
        Input::Utxo(UtxoPointer::new(
            &utxo_pointer.fragment_id,
            utxo_pointer.output_index,
            &utxo_pointer.value,
        ))
    }

    /// The input withdrawing `v` from the given account.
    pub fn from_account(account: &Account, v: &Value) -> (r: Input)
        ensures
            r@ == InputV::Account(account_id_bytes(account@), v.amount),
    {
        let identifier = account.to_identifier();
        Input::Account(identifier, Value { amount: v.amount })
    }

    /// Which kind of input this is.
    pub fn get_type(&self) -> (r: InputKind)
        ensures
            match self@ {
                InputV::Utxo(_) => r == InputKind::Utxo,
                InputV::Account(_, _) => r == InputKind::Account,
            },
    {
        match self {
            Input::Utxo(_) => InputKind::Utxo,
            Input::Account(_, _) => InputKind::Account,
        }
    }

    /// Does the input withdraw from an account?
    pub fn is_account(&self) -> (r: bool)
        ensures
            r == (self@ matches InputV::Account(_, _)),
    {
        match self {
            Input::Account(_, _) => true,
            _ => false,
        }
    }

    /// Does the input spend an unspent output?
    pub fn is_utxo(&self) -> (r: bool)
        ensures
            r == (self@ matches InputV::Utxo(_)),
    {
        match self {
            Input::Utxo(_) => true,
            _ => false,
        }
    }

    /// The value the input carries.
    pub fn value(&self) -> (r: Value)
        ensures
            r.amount == input_value(self@),
    {
        match self {
            Input::Utxo(p) => Value { amount: p.value.amount },
            Input::Account(_, v) => Value { amount: v.amount },
        }
    }

    /// The UTXO pointer, exactly when the input spends an unspent output.
    pub fn get_utxo_pointer(&self) -> (r: Result<UtxoPointer, CoreError>)
        ensures
            match self@ {
                InputV::Utxo(p) => r matches Ok(x) && x@ == p,
                _ => r matches Err(e) && e == CoreError::WrongVariant,
            },
    {
        match self {
            Input::Utxo(p) => Ok(UtxoPointer::new(&p.fragment_id, p.output_index, &p.value)),
            _ => Err(CoreError::WrongVariant),
        }
    }

    /// The account identifier, exactly when the input withdraws from an
    /// account.
    pub fn get_account_identifier(&self) -> (r: Result<AccountIdentifier, CoreError>)
        ensures
            match self@ {
                InputV::Account(id, _) => r matches Ok(x) && x.bytes@ == id,
                _ => r matches Err(e) && e == CoreError::WrongVariant,
            },
    {
        match self {
            Input::Account(id, _) => Ok(AccountIdentifier { bytes: dup_bytes(&id.bytes) }),
            _ => Err(CoreError::WrongVariant),
        }
    }

    /// The canonical 41-byte encoding.
    pub fn as_bytes(&self) -> (r: Vec<u8>)
        requires
            self.wf(),
        ensures
            r@ == input_bytes(self@),
    {
        let mut v: Vec<u8> = Vec::new();
        match self {
            Input::Utxo(p) => {
                v.push(p.output_index);
                push_be(&mut v, p.value.amount as u128, 8);
                push_bytes(&mut v, p.fragment_id.bytes.as_slice());
            },
            Input::Account(id, val) => {
                v.push(0xff);
                push_be(&mut v, val.amount as u128, 8);
                push_bytes(&mut v, id.bytes.as_slice());
            },
        }
        proof {
            assert(v@ =~= input_bytes(self@));
        }
        v
    }

    /// Read an input from its canonical bytes.
    pub fn from_bytes(bytes: &[u8]) -> (r: Result<Input, CoreError>)
        ensures
            match r {
                Ok(i) => spec_input_decode(bytes@) == Some(i@) && i.wf(),
                Err(e) => spec_input_decode(bytes@) is None && e == CoreError::MalformedInput,
            },
    {
        if bytes.len() != 41 {
            return Err(CoreError::MalformedInput);
        }
        let tag = bytes[0];
        let value = read_u64_be(bytes, 1);
        let ptr = copy_range(bytes, 9, 32);
        if tag == 0xff {
            Ok(Input::Account(AccountIdentifier { bytes: ptr }, Value { amount: value }))
        } else {
            Ok(
                Input::Utxo(
                    UtxoPointer {
                        fragment_id: FragmentId { bytes: ptr },
                        output_index: tag,
                        value: Value { amount: value },
                    },
                ),
            )
        }
    }
}

/// A transaction output: an address and the value sent to it.
#[derive(Clone, Debug)]
pub struct Output {
    pub address: Address,
    pub value: Value,
}

/// The mathematical model of an output.
pub ghost struct OutputV {
    pub address: AddressV,
    pub value: u64,
}

impl View for Output {
    type V = OutputV;

    open spec fn view(&self) -> OutputV {
        OutputV { address: self.address@, value: self.value.amount }
    }
}

/// Is the output model well formed?
pub open spec fn wf_output(o: OutputV) -> bool {
    wf_address(o.address)
}

/// The canonical bytes of an output: the address, then the 8-byte value.
pub open spec fn output_bytes(o: OutputV) -> Seq<u8> {
    addr_bytes(o.address) + be_bytes(o.value as int, 8)
}

/// Copy an output.
pub(crate) fn dup_output(o: &Output) -> (r: Output)
    ensures
        r@ == o@,
{
    Output {
        address: crate::address::dup_address(&o.address),
        value: Value { amount: o.value.amount },
    }
}

impl Output {
    /// Is the output well formed?
    pub open spec fn wf(&self) -> bool {
        wf_output(self@)
    }

    /// The receiving address.
    pub fn address(&self) -> (r: Address)
        ensures
            r@ == self@.address,
    {
        crate::address::dup_address(&self.address)
    }

    /// The value sent.
    pub fn value(&self) -> (r: Value)
        ensures
            r.amount == self@.value,
    {
        Value { amount: self.value.amount }
    }
}

/// A witness: the signature object authorizing one input.
///
/// The variant is keyed by the input kind and key scheme it authorizes;
/// a legacy witness also carries the extended public key it was made
/// with, since legacy addresses do not expose it.
#[derive(Clone, Debug)]
pub enum Witness {
    Utxo(UtxoWitness),
    Account(AccountWitness),
    OldUtxo(Bip32PublicKey, LegacyUtxoWitness),
}

/// The mathematical model of a witness.
pub ghost enum WitnessV {
    Utxo(Seq<u8>),
    Account(Seq<u8>),
    OldUtxo(Seq<u8>, Seq<u8>),
}

impl View for Witness {
    type V = WitnessV;

    open spec fn view(&self) -> WitnessV {
        match self {
            Witness::Utxo(s) => WitnessV::Utxo(s.bytes@),
            Witness::Account(s) => WitnessV::Account(s.bytes@),
            Witness::OldUtxo(k, s) => WitnessV::OldUtxo(k.xpub@, s.bytes@),
        }
    }
}

/// Is the witness model well formed?
pub open spec fn wf_witness(w: WitnessV) -> bool {
    match w {
        WitnessV::Utxo(s) => s.len() == 64,
        WitnessV::Account(s) => s.len() == 64,
        WitnessV::OldUtxo(k, s) => k.len() == 64 && s.len() == 64,
    }
}

/// The canonical bytes of a witness: a scheme tag, then the key and
/// signature bytes.
pub open spec fn witness_bytes(w: WitnessV) -> Seq<u8> {
    match w {
        WitnessV::OldUtxo(k, s) => seq![0u8] + k + s,
        WitnessV::Utxo(s) => seq![1u8] + s,
        WitnessV::Account(s) => seq![2u8] + s,
    }
}

/// The canonical bytes of a witness list, in order.
pub open spec fn witnesses_bytes(ws: Seq<WitnessV>) -> Seq<u8>
    decreases ws.len(),
{
    if ws.len() == 0 {
        Seq::empty()
    } else {
        witness_bytes(ws.first()) + witnesses_bytes(ws.drop_first())
    }
}

/// Appending a witness appends its bytes.
pub proof fn lemma_witnesses_bytes_snoc(ws: Seq<WitnessV>, w: WitnessV)
    ensures
        witnesses_bytes(ws.push(w)) == witnesses_bytes(ws) + witness_bytes(w),
    decreases ws.len(),
{
    if ws.len() == 0 {
        let p = ws.push(w);
        assert(p.first() == w);
        assert(p.drop_first() =~= Seq::<WitnessV>::empty());
        assert(witnesses_bytes(p) == witness_bytes(p.first()) + witnesses_bytes(
            p.drop_first(),
        ));
        assert(witnesses_bytes(p) =~= witnesses_bytes(ws) + witness_bytes(w));
    } else {
        assert(ws.push(w).first() == ws.first());
        assert(ws.push(w).drop_first() =~= ws.drop_first().push(w));
        lemma_witnesses_bytes_snoc(ws.drop_first(), w);
        assert(witnesses_bytes(ws.push(w)) =~= witnesses_bytes(ws) + witness_bytes(w));
    }
}

/// The witness list denoted by `s`, if `s` is exactly `n` encodings.
pub open spec fn spec_witnesses_decode(s: Seq<u8>, n: nat) -> Option<Seq<WitnessV>>
    decreases n,
{
    if n == 0 {
        if s.len() == 0 {
            Some(Seq::empty())
        } else {
            None
        }
    } else if s.len() < 1 {
        None
    } else if s[0] == 0 {
        if s.len() < 129 {
            None
        } else {
            match spec_witnesses_decode(s.skip(129), (n - 1) as nat) {
                Some(ws) => Some(
                    seq![WitnessV::OldUtxo(s.subrange(1, 65), s.subrange(65, 129))] + ws,
                ),
                None => None,
            }
        }
    } else if s[0] == 1 || s[0] == 2 {
        if s.len() < 65 {
            None
        } else {
            match spec_witnesses_decode(s.skip(65), (n - 1) as nat) {
                Some(ws) => Some(
                    if s[0] == 1 {
                        seq![WitnessV::Utxo(s.subrange(1, 65))] + ws
                    } else {
                        seq![WitnessV::Account(s.subrange(1, 65))] + ws
                    },
                ),
                None => None,
            }
        }
    } else {
        None
    }
}

/// Decoding inverts encoding for every well-formed witness list.
pub proof fn lemma_witnesses_round_trip(ws: Seq<WitnessV>)
    requires
        forall|i: int| 0 <= i < ws.len() ==> wf_witness(#[trigger] ws[i]),
    ensures
        spec_witnesses_decode(witnesses_bytes(ws), ws.len()) == Some(ws),
    decreases ws.len(),
{
    if ws.len() > 0 {
        let s = witnesses_bytes(ws);
        let w = ws.first();
        let rest = witnesses_bytes(ws.drop_first());
        lemma_witnesses_round_trip(ws.drop_first());
        match w {
            WitnessV::OldUtxo(k, sig) => {
                assert(s.subrange(1, 65) =~= k);
                assert(s.subrange(65, 129) =~= sig);
                assert(s.skip(129) =~= rest);
                assert(seq![WitnessV::OldUtxo(s.subrange(1, 65), s.subrange(65, 129))]
                    + ws.drop_first() =~= ws);
            },
            WitnessV::Utxo(sig) => {
                assert(s.subrange(1, 65) =~= sig);
                assert(s.skip(65) =~= rest);
                assert(seq![WitnessV::Utxo(s.subrange(1, 65))] + ws.drop_first() =~= ws);
            },
            WitnessV::Account(sig) => {
                assert(s.subrange(1, 65) =~= sig);
                assert(s.skip(65) =~= rest);
                assert(seq![WitnessV::Account(s.subrange(1, 65))] + ws.drop_first() =~= ws);
            },
        }
    }
}

/// The message a UTXO witness signs: the genesis digest, then the
/// transaction's sign-data digest.
pub open spec fn utxo_witness_msg(genesis: Seq<u8>, txid: Seq<u8>) -> Seq<u8> {
    genesis + txid
}

/// The message an account witness signs: the UTXO message, then the
/// account's 4-byte spending counter.
pub open spec fn account_witness_msg(genesis: Seq<u8>, txid: Seq<u8>, counter: u32) -> Seq<u8> {
    genesis + txid + be_bytes(counter as int, 4)
}

/// The signed message pins down the chain and the transaction: two
/// UTXO witness messages agree only when both digests agree.  This is
/// what makes a witness useless on another chain or transaction.
pub proof fn lemma_utxo_witness_msg_injective(
    g1: Seq<u8>,
    t1: Seq<u8>,
    g2: Seq<u8>,
    t2: Seq<u8>,
)
    requires
        g1.len() == 32,
        g2.len() == 32,
        utxo_witness_msg(g1, t1) == utxo_witness_msg(g2, t2),
    ensures
        g1 == g2,
        t1 == t2,
{
    let m = utxo_witness_msg(g1, t1);
    assert(g1 =~= m.subrange(0, 32));
    assert(g2 =~= m.subrange(0, 32));
    assert(t1 =~= m.skip(32));
    assert(t2 =~= m.skip(32));
}

/// The signed message also pins down the spending counter: two account
/// witness messages for the same chain and transaction agree only when
/// the counters agree.  This is what makes a spent witness useless a
/// second time.
pub proof fn lemma_account_witness_msg_injective(
    g: Seq<u8>,
    t: Seq<u8>,
    c1: u32,
    c2: u32,
)
    requires
        account_witness_msg(g, t, c1) == account_witness_msg(g, t, c2),
    ensures
        c1 == c2,
{
    let m1 = account_witness_msg(g, t, c1);
    let m2 = account_witness_msg(g, t, c2);
    let base = g.len() + t.len();
    lemma_be_bytes_len(c1 as int, 4);
    lemma_be_bytes_len(c2 as int, 4);
    assert(be_bytes(c1 as int, 4) =~= m1.skip(base as int));
    assert(be_bytes(c2 as int, 4) =~= m2.skip(base as int));
    assert(crate::bytes::pow256(4) == 0x1_0000_0000) by {
        reveal_with_fuel(crate::bytes::pow256, 5);
    }
    crate::bytes::lemma_be_bytes_injective(c1 as int, c2 as int, 4);
}

/// Copy a witness.
pub(crate) fn dup_witness(w: &Witness) -> (r: Witness)
    ensures
        r@ == w@,
{
    match w {
        Witness::Utxo(s) => Witness::Utxo(UtxoWitness { bytes: dup_bytes(&s.bytes) }),
        Witness::Account(s) => Witness::Account(AccountWitness { bytes: dup_bytes(&s.bytes) }),
        Witness::OldUtxo(k, s) => Witness::OldUtxo(
            Bip32PublicKey { xpub: dup_bytes(&k.xpub) },
            LegacyUtxoWitness { bytes: dup_bytes(&s.bytes) },
        ),
    }
}

impl Witness {
    /// Is the witness well formed?
    pub open spec fn wf(&self) -> bool {
        wf_witness(self@)
    }

    /// Sign a UTXO input.  The genesis digest is bound into the signed
    /// message, so the witness cannot be replayed on another chain.
    pub fn for_utxo(
        genesis_hash: &crate::primitives::Hash,
        transaction_id: &TransactionSignDataHash,
        secret_key: &PrivateKey,
    ) -> (r: Witness)
        requires
            secret_key.wf(),
        ensures
            r.wf(),
            r@ matches WitnessV::Utxo(sig) && sig == (match secret_key {
                PrivateKey::Normal(b) => ed25519_sign_of(
                    b@,
                    utxo_witness_msg(genesis_hash.bytes@, transaction_id.bytes@),
                ),
                PrivateKey::Extended(b) => extended_sign_of(
                    b@.subrange(0, 64),
                    utxo_witness_msg(genesis_hash.bytes@, transaction_id.bytes@),
                ),
            }),
    {
        let mut msg = dup_bytes(&genesis_hash.bytes);
        push_bytes(&mut msg, transaction_id.bytes.as_slice());
        let sig = secret_key.sign(msg.as_slice());
        Witness::Utxo(UtxoWitness { bytes: sig.bytes })
    }

    /// A UTXO witness signed elsewhere, as by a hardware wallet.
    pub fn from_external_utxo(witness: &UtxoWitness) -> (r: Witness)
        ensures
            r@ == WitnessV::Utxo(witness.bytes@),
    {
        Witness::Utxo(UtxoWitness { bytes: dup_bytes(&witness.bytes) })
    }

    /// Sign an account input.  The spending counter is bound into the
    /// signed message, so the witness cannot be replayed.
    pub fn for_account(
        genesis_hash: &crate::primitives::Hash,
        transaction_id: &TransactionSignDataHash,
        secret_key: &PrivateKey,
        account_spending_counter: &SpendingCounter,
    ) -> (r: Witness)
        requires
            secret_key.wf(),
        ensures
            r.wf(),
            r@ matches WitnessV::Account(sig) && sig == (match secret_key {
                PrivateKey::Normal(b) => ed25519_sign_of(
                    b@,
                    account_witness_msg(
                        genesis_hash.bytes@,
                        transaction_id.bytes@,
                        account_spending_counter.counter,
                    ),
                ),
                PrivateKey::Extended(b) => extended_sign_of(
                    b@.subrange(0, 64),
                    account_witness_msg(
                        genesis_hash.bytes@,
                        transaction_id.bytes@,
                        account_spending_counter.counter,
                    ),
                ),
            }),
    {
        let mut msg = dup_bytes(&genesis_hash.bytes);
        push_bytes(&mut msg, transaction_id.bytes.as_slice());
        push_be(&mut msg, account_spending_counter.counter as u128, 4);
        let sig = secret_key.sign(msg.as_slice());
        Witness::Account(AccountWitness { bytes: sig.bytes })
    }

    /// An account witness signed elsewhere, as by a hardware wallet.
    pub fn from_external_account(witness: &AccountWitness) -> (r: Witness)
        ensures
            r@ == WitnessV::Account(witness.bytes@),
    {
        Witness::Account(AccountWitness { bytes: dup_bytes(&witness.bytes) })
    }

    /// Sign a legacy UTXO input with an extended key in the newer
    /// legacy scheme.
    pub fn for_legacy_icarus_utxo(
        genesis_hash: &crate::primitives::Hash,
        transaction_id: &TransactionSignDataHash,
        secret_key: &Bip32PrivateKey,
    ) -> (r: Witness)
        requires
            secret_key.wf(),
        ensures
            r.wf() <== secret_key.wf(),
            r@ matches WitnessV::OldUtxo(k, sig) && k == extended_public_of(
                secret_key.xprv@.subrange(0, 64),
            ) + secret_key.xprv@.subrange(64, 96) && sig == extended_sign_of(
                secret_key.xprv@.subrange(0, 64),
                utxo_witness_msg(genesis_hash.bytes@, transaction_id.bytes@),
            ),
    {
        let mut msg = dup_bytes(&genesis_hash.bytes);
        push_bytes(&mut msg, transaction_id.bytes.as_slice());
        let xpub = secret_key.to_public();
        let xsk = copy_range(secret_key.xprv.as_slice(), 0, 64);
        proof {
            crate::keys::lemma_marked_top_byte(secret_key.xprv@[31]);
            assert(xsk@[31] == secret_key.xprv@[31]);
        }
        let sig = crypto::extended_sign(xsk.as_slice(), msg.as_slice());
        Witness::OldUtxo(xpub, LegacyUtxoWitness { bytes: sig })
    }

    /// A legacy witness signed elsewhere, with the extended public key
    /// it was made with.
    pub fn from_external_legacy_icarus_utxo(
        key: &Bip32PublicKey,
        witness: &LegacyUtxoWitness,
    ) -> (r: Witness)
        ensures
            r@ == WitnessV::OldUtxo(key.xpub@, witness.bytes@),
    {
        Witness::OldUtxo(
            Bip32PublicKey { xpub: dup_bytes(&key.xpub) },
            LegacyUtxoWitness { bytes: dup_bytes(&witness.bytes) },
        )
    }

    /// Sign a legacy UTXO input with an old-scheme extended key.
    pub fn for_legacy_daedalus_utxo(
        genesis_hash: &crate::primitives::Hash,
        transaction_id: &TransactionSignDataHash,
        secret_key: &LegacyDaedalusPrivateKey,
    ) -> (r: Witness)
        requires
            secret_key.wf(),
        ensures
            r.wf(),
            r@ matches WitnessV::OldUtxo(k, sig) && k == extended_public_of(
                secret_key.bytes@.subrange(0, 64),
            ) + secret_key.bytes@.subrange(64, 96) && sig == extended_sign_of(
                secret_key.bytes@.subrange(0, 64),
                utxo_witness_msg(genesis_hash.bytes@, transaction_id.bytes@),
            ),
    {
        let mut msg = dup_bytes(&genesis_hash.bytes);
        push_bytes(&mut msg, transaction_id.bytes.as_slice());
        let xsk = copy_range(secret_key.bytes.as_slice(), 0, 64);
        proof {
            crate::keys::lemma_marked_top_byte(secret_key.bytes@[31]);
            assert(xsk@[31] == secret_key.bytes@[31]);
        }
        let mut xpub = crypto::extended_public(xsk.as_slice());
        let cc = copy_range(secret_key.bytes.as_slice(), 64, 32);
        push_bytes(&mut xpub, cc.as_slice());
        let sig = crypto::extended_sign(xsk.as_slice(), msg.as_slice());
        Witness::OldUtxo(Bip32PublicKey { xpub }, LegacyUtxoWitness { bytes: sig })
    }

    /// The bech32 rendering of the witness bytes under `witness`.
    pub fn to_bech32(&self) -> (r: Result<String, CoreError>)
        requires
            self.wf(),
        ensures
            r matches Ok(s) && s@ == crate::codec::bech32_str_of(
                "witness"@,
                witness_bytes(self@),
            ),
    {
        proof {
            reveal_strlit("witness");
        }
        let mut v: Vec<u8> = Vec::new();
        push_witness(&mut v, self);
        Ok(crate::codec::bech32_encode("witness", v.as_slice()))
    }
}

/// Append the canonical bytes of a witness to `v`.
pub(crate) fn push_witness(v: &mut Vec<u8>, w: &Witness)
    ensures
        final(v)@ =~= old(v)@ + witness_bytes(w@),
{
    match w {
        Witness::OldUtxo(k, s) => {
            v.push(0);
            push_bytes(v, k.xpub.as_slice());
            push_bytes(v, s.bytes.as_slice());
        },
        Witness::Utxo(s) => {
            v.push(1);
            push_bytes(v, s.bytes.as_slice());
        },
        Witness::Account(s) => {
            v.push(2);
            push_bytes(v, s.bytes.as_slice());
        },
    }
}

/// An ordered collection of inputs.
#[derive(Clone, Debug)]
pub struct Inputs {
    pub items: Vec<Input>,
}

impl Inputs {
    /// The empty collection.
    pub fn new() -> (r: Inputs)
        ensures
            r.items@.len() == 0,
    {
        Inputs { items: Vec::new() }
    }

    /// How many inputs the collection holds.
    pub fn size(&self) -> (r: usize)
        ensures
            r == self.items@.len(),
    {
        self.items.len()
    }

    /// The input at `index`.
    pub fn get(&self, index: usize) -> (r: Input)
        requires
            index < self.items@.len(),
        ensures
            r@ == self.items@[index as int]@,
    {
        dup_input(&self.items[index])
    }

    /// Append an input, keeping the order of insertion.
    pub fn add(&mut self, item: &Input)
        ensures
            final(self).items@.len() == old(self).items@.len() + 1,
            final(self).items@.last()@ == item@,
            forall|i: int|
                0 <= i < old(self).items@.len() ==> final(self).items@[i]
                    == old(self).items@[i],
    {
        self.items.push(dup_input(item));
    }
}

/// An ordered collection of outputs.
#[derive(Clone, Debug)]
pub struct Outputs {
    pub items: Vec<Output>,
}

impl Outputs {
    /// The empty collection.
    pub fn new() -> (r: Outputs)
        ensures
            r.items@.len() == 0,
    {
        Outputs { items: Vec::new() }
    }

    /// How many outputs the collection holds.
    pub fn size(&self) -> (r: usize)
        ensures
            r == self.items@.len(),
    {
        self.items.len()
    }

    /// The output at `index`.
    pub fn get(&self, index: usize) -> (r: Output)
        requires
            index < self.items@.len(),
        ensures
            r@ == self.items@[index as int]@,
    {
        dup_output(&self.items[index])
    }

    /// Append an output, keeping the order of insertion.
    pub fn add(&mut self, item: &Output)
        ensures
            final(self).items@.len() == old(self).items@.len() + 1,
            final(self).items@.last()@ == item@,
            forall|i: int|
                0 <= i < old(self).items@.len() ==> final(self).items@[i]
                    == old(self).items@[i],
    {
        self.items.push(dup_output(item));
    }
}

/// An ordered collection of witnesses.
#[derive(Clone, Debug)]
pub struct Witnesses {
    pub items: Vec<Witness>,
}

impl Witnesses {
    /// The empty collection.
    pub fn new() -> (r: Witnesses)
        ensures
            r.items@.len() == 0,
    {
        Witnesses { items: Vec::new() }
    }

    /// How many witnesses the collection holds.
    pub fn size(&self) -> (r: usize)
        ensures
            r == self.items@.len(),
    {
        self.items.len()
    }

    /// The witness at `index`.
    pub fn get(&self, index: usize) -> (r: Witness)
        requires
            index < self.items@.len(),
        ensures
            r@ == self.items@[index as int]@,
    {
        dup_witness(&self.items[index])
    }

    /// Append a witness, keeping the order of insertion.
    pub fn add(&mut self, item: &Witness)
        ensures
            final(self).items@.len() == old(self).items@.len() + 1,
            final(self).items@.last()@ == item@,
            forall|i: int|
                0 <= i < old(self).items@.len() ==> final(self).items@[i]
                    == old(self).items@[i],
    {
        self.items.push(dup_witness(item));
    }
}

/// The models of an input vector, in order.
pub open spec fn inputs_of(s: Seq<Input>) -> Seq<InputV> {
    Seq::new(s.len(), |i: int| s[i]@)
}

/// The models of an output vector, in order.
pub open spec fn outputs_of(s: Seq<Output>) -> Seq<OutputV> {
    Seq::new(s.len(), |i: int| s[i]@)
}

/// The models of a witness vector, in order.
pub open spec fn witnesses_of(s: Seq<Witness>) -> Seq<WitnessV> {
    Seq::new(s.len(), |i: int| s[i]@)
}

/// The canonical bytes of an input list, in order: 41 bytes each.
pub open spec fn inputs_bytes(is: Seq<InputV>) -> Seq<u8>
    decreases is.len(),
{
    if is.len() == 0 {
        Seq::empty()
    } else {
        inputs_bytes(is.drop_last()) + input_bytes(is.last())
    }
}

/// Are all inputs in the list well formed?
pub open spec fn wf_inputs(is: Seq<InputV>) -> bool {
    forall|i: int| 0 <= i < is.len() ==> wf_input(#[trigger] is[i])
}

/// A well-formed input list encodes to 41 bytes per input.
pub proof fn lemma_inputs_bytes_len(is: Seq<InputV>)
    requires
        wf_inputs(is),
    ensures
        inputs_bytes(is).len() == 41 * is.len(),
    decreases is.len(),
{
    if is.len() > 0 {
        lemma_inputs_bytes_len(is.drop_last());
        match is.last() {
            InputV::Utxo(p) => lemma_be_bytes_len(p.value as int, 8),
            InputV::Account(_, v) => lemma_be_bytes_len(v as int, 8),
        }
    }
}

/// Each input sits at its own 41-byte slot of the encoding.
pub proof fn lemma_inputs_bytes_index(is: Seq<InputV>, i: int)
    requires
        wf_inputs(is),
        0 <= i < is.len(),
    ensures
        inputs_bytes(is).subrange(41 * i, 41 * i + 41) == input_bytes(is[i]),
    decreases is.len(),
{
    lemma_inputs_bytes_len(is);
    lemma_inputs_bytes_len(is.drop_last());
    match is.last() {
        InputV::Utxo(p) => lemma_be_bytes_len(p.value as int, 8),
        InputV::Account(_, v) => lemma_be_bytes_len(v as int, 8),
    }
    if i == is.len() - 1 {
        assert(inputs_bytes(is).subrange(41 * i, 41 * i + 41) =~= input_bytes(is[i]));
    } else {
        lemma_inputs_bytes_index(is.drop_last(), i);
        assert(inputs_bytes(is).subrange(41 * i, 41 * i + 41) =~= inputs_bytes(
            is.drop_last(),
        ).subrange(41 * i, 41 * i + 41));
    }
}

/// The input denoted by the 41 bytes of `s` starting at `off`.
pub open spec fn input_at(s: Seq<u8>, off: int) -> InputV {
    if s[off] == 0xff {
        InputV::Account(s.subrange(off + 9, off + 41), be_val(s.subrange(off + 1, off + 9)) as u64)
    } else {
        InputV::Utxo(
            UtxoPointerV {
                fragment: s.subrange(off + 9, off + 41),
                index: s[off],
                value: be_val(s.subrange(off + 1, off + 9)) as u64,
            },
        )
    }
}

/// Reading an input slot back yields the input that was encoded there.
pub proof fn lemma_input_at_round_trip(s: Seq<u8>, off: int, x: InputV)
    requires
        wf_input(x),
        0 <= off,
        off + 41 <= s.len(),
        s.subrange(off, off + 41) == input_bytes(x),
    ensures
        input_at(s, off) == x,
{
    crate::bytes::lemma_pow256_8();
    let w = s.subrange(off, off + 41);
    assert(s[off] == w[0]);
    assert(s.subrange(off + 1, off + 9) =~= w.subrange(1, 9));
    assert(s.subrange(off + 9, off + 41) =~= w.subrange(9, 41));
    match x {
        InputV::Utxo(p) => {
            lemma_be_bytes_len(p.value as int, 8);
            assert(w.subrange(1, 9) =~= be_bytes(p.value as int, 8));
            assert(w.subrange(9, 41) =~= p.fragment);
            lemma_be_round_trip(p.value as int, 8);
        },
        InputV::Account(id, v) => {
            lemma_be_bytes_len(v as int, 8);
            assert(w.subrange(1, 9) =~= be_bytes(v as int, 8));
            assert(w.subrange(9, 41) =~= id);
            lemma_be_round_trip(v as int, 8);
        },
    }
}

/// The canonical bytes of an output list, in order.
pub open spec fn outputs_bytes(os: Seq<OutputV>) -> Seq<u8>
    decreases os.len(),
{
    if os.len() == 0 {
        Seq::empty()
    } else {
        output_bytes(os.first()) + outputs_bytes(os.drop_first())
    }
}

/// Are all outputs in the list well formed?
pub open spec fn wf_outputs(os: Seq<OutputV>) -> bool {
    forall|i: int| 0 <= i < os.len() ==> wf_output(#[trigger] os[i])
}

/// Appending an output appends its bytes.
pub proof fn lemma_outputs_bytes_snoc(os: Seq<OutputV>, o: OutputV)
    ensures
        outputs_bytes(os.push(o)) == outputs_bytes(os) + output_bytes(o),
    decreases os.len(),
{
    if os.len() == 0 {
        let p = os.push(o);
        assert(p.first() == o);
        assert(p.drop_first() =~= Seq::<OutputV>::empty());
        assert(outputs_bytes(p) == output_bytes(p.first()) + outputs_bytes(p.drop_first()));
        assert(outputs_bytes(p) =~= outputs_bytes(os) + output_bytes(o));
    } else {
        assert(os.push(o).first() == os.first());
        assert(os.push(o).drop_first() =~= os.drop_first().push(o));
        lemma_outputs_bytes_snoc(os.drop_first(), o);
        assert(outputs_bytes(os.push(o)) =~= outputs_bytes(os) + output_bytes(o));
    }
}

/// A well-formed address encodes to 65 bytes for a group, 33 otherwise.
pub proof fn lemma_addr_bytes_len(m: AddressV)
    requires
        wf_address(m),
    ensures
        addr_bytes(m).len() == (match m.kind {
            crate::address::KindV::Group(_, _) => 65int,
            _ => 33int,
        }),
{
}

/// The output list denoted by a prefix of `s`, with what remains.
pub open spec fn spec_outputs_decode(s: Seq<u8>, n: nat) -> Option<(Seq<OutputV>, Seq<u8>)>
    decreases n,
{
    if n == 0 {
        Some((Seq::empty(), s))
    } else if s.len() < 1 {
        None
    } else {
        let t = s[0];
        let base: u8 = if t >= 0x80 {
            (t - 0x80) as u8
        } else {
            t
        };
        let alen: int = if base == 4 {
            65
        } else {
            33
        };
        if s.len() < alen + 8 {
            None
        } else {
            match spec_addr_decode(s.subrange(0, alen)) {
                Some(a) => match spec_outputs_decode(s.skip(alen + 8), (n - 1) as nat) {
                    Some((os, rest)) => Some(
                        (
                            seq![
                                OutputV {
                                    address: a,
                                    value: be_val(s.subrange(alen, alen + 8)) as u64,
                                },
                            ] + os,
                            rest,
                        ),
                    ),
                    None => None,
                },
                None => None,
            }
        }
    }
}

/// Decoding inverts encoding for every well-formed output list, leaving
/// whatever follows untouched.
pub proof fn lemma_outputs_round_trip(os: Seq<OutputV>, rest: Seq<u8>)
    requires
        wf_outputs(os),
    ensures
        spec_outputs_decode(outputs_bytes(os) + rest, os.len()) == Some((os, rest)),
    decreases os.len(),
{
    if os.len() == 0 {
        assert(outputs_bytes(os) + rest =~= rest);
    } else {
        let o = os.first();
        let s = outputs_bytes(os) + rest;
        let ab = addr_bytes(o.address);
        lemma_addr_bytes_len(o.address);
        lemma_be_bytes_len(o.value as int, 8);
        let alen = ab.len() as int;
        assert(s[0] == ab[0]);
        // the tag byte determines the address width
        assert(ab[0] == crate::address::addr_tag(o.address));
        assert(s.subrange(0, alen) =~= ab);
        crate::address::lemma_address_bytes_round_trip(o.address);
        assert(s.subrange(alen, alen + 8) =~= be_bytes(o.value as int, 8));
        crate::bytes::lemma_pow256_8();
        lemma_be_round_trip(o.value as int, 8);
        assert(s.skip(alen + 8) =~= outputs_bytes(os.drop_first()) + rest);
        lemma_outputs_round_trip(os.drop_first(), rest);
        assert(seq![o] + os.drop_first() =~= os);
    }
}

/// Encoding inverts decoding for output lists: what decodes re-encodes
/// to exactly the bytes consumed, and is well formed.
pub proof fn lemma_outputs_decode_inverts(s: Seq<u8>, n: nat)
    ensures
        match spec_outputs_decode(s, n) {
            Some(p) => outputs_bytes(p.0) + p.1 == s && wf_outputs(p.0) && p.0.len() == n,
            None => true,
        },
    decreases n,
{
    match spec_outputs_decode(s, n) {
        Some(p) => {
            if n == 0 {
                assert(outputs_bytes(p.0) + p.1 =~= s);
            } else {
                let t = s[0];
                let base: u8 = if t >= 0x80 {
                    (t - 0x80) as u8
                } else {
                    t
                };
                let alen: int = if base == 4 {
                    65
                } else {
                    33
                };
                crate::address::lemma_address_decode_inverts(s.subrange(0, alen));
                crate::bytes::lemma_be_val_bounds(s.subrange(alen, alen + 8));
                crate::bytes::lemma_pow256_8();
                crate::bytes::lemma_be_bytes_of_val(s.subrange(alen, alen + 8));
                lemma_outputs_decode_inverts(s.skip(alen + 8), (n - 1) as nat);
                let o = p.0.first();
                let q = spec_outputs_decode(s.skip(alen + 8), (n - 1) as nat).unwrap();
                assert(p.1 == q.1);
                assert(outputs_bytes(q.0) + q.1 == s.skip(alen + 8));
                assert(addr_bytes(o.address) == s.subrange(0, alen));
                assert(o.value as int == be_val(s.subrange(alen, alen + 8)));
                assert(be_bytes(o.value as int, 8) == s.subrange(alen, alen + 8));
                assert(output_bytes(o) =~= s.subrange(0, alen + 8));
                assert(p.0.drop_first() =~= q.0);
                assert(outputs_bytes(p.0) == output_bytes(o) + outputs_bytes(q.0));
                assert(outputs_bytes(p.0) + p.1 =~= output_bytes(o) + (outputs_bytes(q.0)
                    + q.1));
                assert(output_bytes(o) + (outputs_bytes(q.0) + q.1) =~= s.subrange(
                    0,
                    alen + 8,
                ) + s.skip(alen + 8));
                assert(s.subrange(0, alen + 8) + s.skip(alen + 8) =~= s);
                assert(outputs_bytes(p.0) + p.1 == s);
                assert forall|i: int| 0 <= i < p.0.len() implies wf_output(#[trigger] p.0[i]) by {
                    if i > 0 {
                        assert(p.0[i] == p.0.drop_first()[i - 1]);
                    }
                }
            }
        },
        None => {},
    }
}

/// Encoding inverts decoding for witness lists: what decodes re-encodes
/// to exactly the whole input, and is well formed.
pub proof fn lemma_witnesses_decode_inverts(s: Seq<u8>, n: nat)
    ensures
        match spec_witnesses_decode(s, n) {
            Some(ws) => witnesses_bytes(ws) == s && ws.len() == n && forall|i: int|
                0 <= i < ws.len() ==> wf_witness(#[trigger] ws[i]),
            None => true,
        },
    decreases n,
{
    match spec_witnesses_decode(s, n) {
        Some(ws) => {
            if n == 0 {
            } else {
                let step: int = if s[0] == 0 {
                    129
                } else {
                    65
                };
                lemma_witnesses_decode_inverts(s.skip(step), (n - 1) as nat);
                assert(ws.drop_first() =~= spec_witnesses_decode(s.skip(step), (n - 1) as nat).unwrap());
                assert(witnesses_bytes(ws) =~= s);
                assert forall|i: int| 0 <= i < ws.len() implies wf_witness(#[trigger] ws[i]) by {
                    if i > 0 {
                        assert(ws[i] == ws.drop_first()[i - 1]);
                    }
                }
            }
        },
        None => {},
    }
}

/// An input list read slot by slot from a region re-encodes to exactly
/// that region.
proof fn lemma_inputs_region(s: Seq<u8>, off: int, n: int)
    requires
        0 <= n,
        0 <= off,
        off + 41 * n <= s.len(),
    ensures
        inputs_bytes(Seq::new(n as nat, |i: int| input_at(s, off + 41 * i))) == s.subrange(
            off,
            off + 41 * n,
        ),
        wf_inputs(Seq::new(n as nat, |i: int| input_at(s, off + 41 * i))),
    decreases n,
{
    let ins = Seq::new(n as nat, |i: int| input_at(s, off + 41 * i));
    if n == 0 {
        assert(inputs_bytes(ins) =~= s.subrange(off, off));
    } else {
        lemma_inputs_region(s, off, n - 1);
        assert(ins.drop_last() =~= Seq::new((n - 1) as nat, |i: int| input_at(s, off + 41 * i)));
        let off_last = off + 41 * (n - 1);
        let w = s.subrange(off_last, off_last + 41);
        assert(w[0] == s[off_last]);
        assert(w.subrange(1, 9) =~= s.subrange(off_last + 1, off_last + 9));
        assert(w.subrange(9, 41) =~= s.subrange(off_last + 9, off_last + 41));
        lemma_input_decode_inverts(w);
        assert(spec_input_decode(w) == Some(input_at(s, off_last)));
        assert(input_bytes(ins.last()) == w);
        assert(inputs_bytes(ins) =~= s.subrange(off, off + 41 * n));
    }
}

/// The tag byte of a transaction's optional certificate payload.
pub open spec fn payload_tag(e: Option<crate::certificate::CertificateV>) -> u8 {
    match e {
        None => 0,
        Some(crate::certificate::CertificateV::StakeDelegation(_)) => 1,
        Some(crate::certificate::CertificateV::OwnerStakeDelegation(_)) => 2,
        Some(crate::certificate::CertificateV::PoolRegistration(_)) => 3,
        Some(crate::certificate::CertificateV::PoolRetirement(_)) => 4,
        Some(crate::certificate::CertificateV::PoolUpdate(_)) => 5,
    }
}

/// The mathematical model of a transaction.
pub ghost struct TxV {
    pub extra: Option<crate::certificate::CertificateV>,
    pub inputs: Seq<InputV>,
    pub outputs: Seq<OutputV>,
    pub witnesses: Seq<WitnessV>,
}

/// Is the transaction model well formed?
pub open spec fn wf_tx(t: TxV) -> bool {
    &&& t.inputs.len() <= 255
    &&& t.outputs.len() <= 255
    &&& t.witnesses.len() <= 255
    &&& wf_inputs(t.inputs)
    &&& wf_outputs(t.outputs)
    &&& forall|i: int| 0 <= i < t.witnesses.len() ==> wf_witness(#[trigger] t.witnesses[i])
    &&& match t.extra {
        Some(c) => crate::certificate::wf_certificate(c),
        None => true,
    }
}

/// The signed payload of a transaction: the certificate tag and bytes,
/// then the counted inputs and outputs, in order.  The witnesses are
/// not part of it: they sign it.
pub open spec fn tx_sign_data(t: TxV) -> Seq<u8> {
    seq![payload_tag(t.extra)] + (match t.extra {
        None => Seq::<u8>::empty(),
        Some(c) => be_bytes(crate::certificate::certificate_bytes(c).len() as int, 2)
            + crate::certificate::certificate_bytes(c),
    }) + seq![t.inputs.len() as u8, t.outputs.len() as u8] + inputs_bytes(t.inputs)
        + outputs_bytes(t.outputs)
}

/// The canonical bytes of a whole transaction: its signed payload, then
/// its counted witnesses.
pub open spec fn tx_bytes(t: TxV) -> Seq<u8> {
    tx_sign_data(t) + seq![t.witnesses.len() as u8] + witnesses_bytes(t.witnesses)
}

/// A well-formed certificate encodes to between 1 and 65535 bytes, so
/// its length always fits the two-byte prefix.
pub proof fn lemma_certificate_bytes_len(c: crate::certificate::CertificateV)
    requires
        crate::certificate::wf_certificate(c),
    ensures
        1 <= crate::certificate::certificate_bytes(c).len() <= 65535,
{
    match c {
        crate::certificate::CertificateV::StakeDelegation(x) => {
            match x.delegation {
                crate::account::DelegationTypeV::Ratio(_, shares) => {
                    crate::certificate::lemma_shares_bytes_len(shares);
                },
                _ => {},
            }
        },
        crate::certificate::CertificateV::OwnerStakeDelegation(x) => {
            match x.delegation {
                crate::account::DelegationTypeV::Ratio(_, shares) => {
                    crate::certificate::lemma_shares_bytes_len(shares);
                },
                _ => {},
            }
        },
        crate::certificate::CertificateV::PoolRegistration(x) => {
            crate::certificate::lemma_keys_bytes_len(x.owners);
            crate::certificate::lemma_keys_bytes_len(x.operators);
            crate::bytes::lemma_be_bytes_len(x.serial as int, 16);
            crate::bytes::lemma_be_bytes_len(x.start as int, 8);
            crate::bytes::lemma_be_bytes_len(x.rewards.fixed as int, 8);
            crate::bytes::lemma_be_bytes_len(x.rewards.num as int, 8);
            crate::bytes::lemma_be_bytes_len(x.rewards.den as int, 8);
            crate::bytes::lemma_be_bytes_len(
                match x.rewards.max {
                    Some(v) => v as int,
                    None => 0,
                },
                8,
            );
        },
        crate::certificate::CertificateV::PoolRetirement(x) => {
            crate::bytes::lemma_be_bytes_len(x.time as int, 8);
        },
        crate::certificate::CertificateV::PoolUpdate(x) => {
            crate::bytes::lemma_be_bytes_len(x.start as int, 8);
        },
    }
}

/// The transaction denoted by `s`, if `s` is exactly one well-formed
/// encoding.
pub open spec fn spec_tx_decode(s: Seq<u8>) -> Option<TxV> {
    if s.len() < 1 {
        None
    } else {
        let tag = s[0];
        if tag > 5 {
            None
        } else {
            let clen: int = if tag == 0 {
                0
            } else if s.len() < 3 {
                -1
            } else {
                be_val(s.subrange(1, 3))
            };
            if clen < 0 || s.len() < (if tag == 0 { 1int } else { 3 + clen }) + 2 {
                None
            } else {
                let o: int = if tag == 0 {
                    1
                } else {
                    3 + clen
                };
                let extra: Option<Option<crate::certificate::CertificateV>> = if tag == 0 {
                    Some(None)
                } else {
                    let cb = s.subrange(3, 3 + clen);
                    if tag == 1 {
                        match crate::certificate::spec_stake_dlg_decode(cb) {
                            Some(c) => Some(
                                Some(crate::certificate::CertificateV::StakeDelegation(c)),
                            ),
                            None => None,
                        }
                    } else if tag == 2 {
                        match crate::certificate::spec_owner_dlg_decode(cb) {
                            Some(c) => Some(
                                Some(crate::certificate::CertificateV::OwnerStakeDelegation(c)),
                            ),
                            None => None,
                        }
                    } else if tag == 3 {
                        match crate::certificate::spec_registration_decode(cb) {
                            Some(c) => Some(
                                Some(crate::certificate::CertificateV::PoolRegistration(c)),
                            ),
                            None => None,
                        }
                    } else if tag == 4 {
                        match crate::certificate::spec_retirement_decode(cb) {
                            Some(c) => Some(
                                Some(crate::certificate::CertificateV::PoolRetirement(c)),
                            ),
                            None => None,
                        }
                    } else {
                        match crate::certificate::spec_update_decode(cb) {
                            Some(c) => Some(Some(crate::certificate::CertificateV::PoolUpdate(c))),
                            None => None,
                        }
                    }
                };
                match extra {
                    None => None,
                    Some(e) => {
                        let nins = s[o] as int;
                        let nouts = s[o + 1] as int;
                        if s.len() < o + 2 + 41 * nins {
                            None
                        } else {
                            let ins = Seq::new(nins as nat, |i: int| input_at(s, o + 2 + 41 * i));
                            let after_ins = s.skip(o + 2 + 41 * nins);
                            match spec_outputs_decode(after_ins, nouts as nat) {
                                None => None,
                                Some((outs, rest)) => {
                                    if rest.len() < 1 {
                                        None
                                    } else {
                                        let nwit = rest[0] as nat;
                                        match spec_witnesses_decode(rest.skip(1), nwit) {
                                            None => None,
                                            Some(ws) => Some(
                                                TxV {
                                                    extra: e,
                                                    inputs: ins,
                                                    outputs: outs,
                                                    witnesses: ws,
                                                },
                                            ),
                                        }
                                    }
                                },
                            }
                        }
                    },
                }
            }
        }
    }
}

/// Decoding inverts encoding for every well-formed transaction.
#[verifier::rlimit(100)]
pub proof fn lemma_tx_round_trip(t: TxV)
    requires
        wf_tx(t),
    ensures
        spec_tx_decode(tx_bytes(t)) == Some(t),
{
    let s = tx_bytes(t);
    let tag = payload_tag(t.extra);
    let cb: Seq<u8> = match t.extra {
        None => Seq::empty(),
        Some(c) => crate::certificate::certificate_bytes(c),
    };
    let clen = cb.len() as int;
    let o: int = if tag == 0 {
        1
    } else {
        3 + clen
    };
    lemma_inputs_bytes_len(t.inputs);
    assert(s[0] == tag);
    match t.extra {
        None => {},
        Some(c) => {
            lemma_certificate_bytes_len(c);
            crate::bytes::lemma_be_bytes_len(clen, 2);
            assert(s.subrange(1, 3) =~= be_bytes(clen, 2));
            assert(crate::bytes::pow256(2) == 65536) by {
                reveal_with_fuel(crate::bytes::pow256, 3);
            }
            crate::bytes::lemma_be_round_trip(clen, 2);
            assert(s.subrange(3, 3 + clen) =~= cb);
            match c {
                crate::certificate::CertificateV::StakeDelegation(x) => {
                    crate::certificate::lemma_stake_dlg_round_trip(x);
                },
                crate::certificate::CertificateV::OwnerStakeDelegation(x) => {
                    crate::certificate::lemma_owner_dlg_round_trip(x);
                },
                crate::certificate::CertificateV::PoolRegistration(x) => {
                    crate::certificate::lemma_registration_round_trip(x);
                },
                crate::certificate::CertificateV::PoolRetirement(x) => {
                    crate::certificate::lemma_retirement_round_trip(x);
                },
                crate::certificate::CertificateV::PoolUpdate(x) => {
                    crate::certificate::lemma_update_round_trip(x);
                },
            }
        },
    }
    assert(s[o] == t.inputs.len() as u8);
    assert(s[o + 1] == t.outputs.len() as u8);
    let nins = t.inputs.len() as int;
    assert forall|i: int| 0 <= i < nins implies input_at(s, o + 2 + 41 * i)
        == t.inputs[i] by {
        lemma_inputs_bytes_index(t.inputs, i);
        assert(s.subrange(o + 2 + 41 * i, o + 2 + 41 * i + 41) =~= inputs_bytes(
            t.inputs,
        ).subrange(41 * i, 41 * i + 41));
        lemma_input_at_round_trip(s, o + 2 + 41 * i, t.inputs[i]);
    }
    assert(Seq::new(nins as nat, |i: int| input_at(s, o + 2 + 41 * i)) =~= t.inputs);
    let after_ins = s.skip(o + 2 + 41 * nins);
    let tail = seq![t.witnesses.len() as u8] + witnesses_bytes(t.witnesses);
    assert(after_ins =~= outputs_bytes(t.outputs) + tail);
    lemma_outputs_round_trip(t.outputs, tail);
    assert(tail[0] == t.witnesses.len() as u8);
    assert(tail.skip(1) =~= witnesses_bytes(t.witnesses));
    lemma_witnesses_round_trip(t.witnesses);
}

/// Encoding inverts decoding for whole transactions: every byte string
/// that decodes is the encoding of the transaction it decodes to, and
/// that transaction is well formed.  With the round trip above, the
/// transaction codec is a bijection between well-formed transactions
/// and their canonical bytes.
#[verifier::rlimit(100)]
pub proof fn lemma_tx_decode_inverts(s: Seq<u8>)
    ensures
        match spec_tx_decode(s) {
            Some(t) => tx_bytes(t) == s && wf_tx(t),
            None => true,
        },
{
    match spec_tx_decode(s) {
        Some(t) => {
            let tag = s[0];
            let clen: int = if tag == 0 {
                0
            } else {
                be_val(s.subrange(1, 3))
            };
            let o: int = if tag == 0 {
                1
            } else {
                3 + clen
            };
            let cb = s.subrange(3, 3 + clen);
            if tag != 0 {
                crate::bytes::lemma_be_val_bounds(s.subrange(1, 3));
                crate::bytes::lemma_be_bytes_of_val(s.subrange(1, 3));
                if tag == 1 {
                    crate::certificate::lemma_stake_dlg_decode_inverts(cb);
                } else if tag == 2 {
                    crate::certificate::lemma_owner_dlg_decode_inverts(cb);
                } else if tag == 3 {
                    crate::certificate::lemma_registration_decode_inverts(cb);
                } else if tag == 4 {
                    crate::certificate::lemma_retirement_decode_inverts(cb);
                } else {
                    crate::certificate::lemma_update_decode_inverts(cb);
                }
                let c = t.extra.unwrap();
                assert(crate::certificate::certificate_bytes(c) == cb);
                assert(payload_tag(t.extra) == tag);
                assert(be_bytes(crate::certificate::certificate_bytes(c).len() as int, 2)
                    == s.subrange(1, 3));
            }
            let nins = s[o] as int;
            lemma_inputs_region(s, o + 2, nins);
            assert(inputs_bytes(t.inputs) == s.subrange(o + 2, o + 2 + 41 * nins));
            assert(t.inputs.len() == nins);
            let after_ins = s.skip(o + 2 + 41 * nins);
            let nouts = s[o + 1] as nat;
            lemma_outputs_decode_inverts(after_ins, nouts);
            let q = spec_outputs_decode(after_ins, nouts).unwrap();
            assert(t.outputs == q.0);
            assert(outputs_bytes(t.outputs) + q.1 == after_ins);
            let rest = q.1;
            let nwit = rest[0] as nat;
            lemma_witnesses_decode_inverts(rest.skip(1), nwit);
            assert(t.witnesses == spec_witnesses_decode(rest.skip(1), nwit).unwrap());
            assert(witnesses_bytes(t.witnesses) == rest.skip(1));
            assert(t.witnesses.len() == nwit);
            assert(rest =~= seq![rest[0]] + rest.skip(1));
            assert(tx_sign_data(t) =~= s.subrange(0, o + 2 + 41 * nins) + outputs_bytes(
                t.outputs,
            ));
            assert(seq![t.witnesses.len() as u8] + witnesses_bytes(t.witnesses) =~= rest);
            assert(tx_bytes(t) =~= tx_sign_data(t) + rest);
            assert(tx_sign_data(t) + rest =~= s.subrange(0, o + 2 + 41 * nins) + (
            outputs_bytes(t.outputs) + rest));
            assert(s.subrange(0, o + 2 + 41 * nins) + after_ins =~= s);
            assert(tx_bytes(t) == s);
        },
        None => {},
    }
}

/// Read `n` outputs from the front of `b`; also say how many bytes they
/// occupied.
fn outputs_from_bytes(b: &[u8], n: u8) -> (r: Result<(Vec<Output>, usize), CoreError>)
    ensures
        match r {
            Ok(p) => {
                &&& p.1 <= b@.len()
                &&& spec_outputs_decode(b@, n as nat) == Some(
                    (outputs_of(p.0@), b@.skip(p.1 as int)),
                )
                &&& p.0@.len() == n
                &&& wf_outputs(outputs_of(p.0@))
            },
            Err(e) => spec_outputs_decode(b@, n as nat) is None && e
                == CoreError::MalformedInput,
        },
    decreases n,
{
    if n == 0 {
        let empty: Vec<Output> = Vec::new();
        proof {
            assert(outputs_of(empty@) =~= Seq::<OutputV>::empty());
            assert(b@.skip(0) =~= b@);
        }
        return Ok((empty, 0));
    }
    if b.len() < 1 {
        return Err(CoreError::MalformedInput);
    }
    let t = b[0];
    let base = if t >= 0x80 {
        t - 0x80
    } else {
        t
    };
    let alen: usize = if base == 4 {
        65
    } else {
        33
    };
    if b.len() < alen + 8 {
        return Err(CoreError::MalformedInput);
    }
    let ab = vstd::slice::slice_subrange(b, 0, alen);
    let address = match Address::from_bytes(ab) {
        Ok(a) => a,
        Err(_) => {
            return Err(CoreError::MalformedInput);
        },
    };
    let value = read_u64_be(b, alen);
    let rest = vstd::slice::slice_subrange(b, alen + 8, b.len());
    match outputs_from_bytes(rest, n - 1) {
        Ok((mut os, used)) => {
            proof {
                assert(rest@ =~= b@.skip(alen as int + 8));
                assert(rest@.skip(used as int) =~= b@.skip(alen + 8 + used));
            }
            let out = Output { address, value: Value { amount: value } };
            let ghost prev = os@;
            os.insert(0, out);
            proof {
                assert(outputs_of(os@) =~= seq![out@] + outputs_of(prev));
                assert forall|k: int| 0 <= k < os@.len() implies wf_output(
                    #[trigger] outputs_of(os@)[k],
                ) by {
                    if k > 0 {
                        assert(outputs_of(os@)[k] == outputs_of(prev)[k - 1]);
                    }
                }
            }
            Ok((os, alen + 8 + used))
        },
        Err(e) => {
            proof {
                assert(rest@ =~= b@.skip(alen as int + 8));
            }
            Err(e)
        },
    }
}

/// Read `n` witnesses occupying the whole of `b`.
fn witnesses_from_bytes(b: &[u8], n: u8) -> (r: Result<Vec<Witness>, CoreError>)
    ensures
        match r {
            Ok(ws) => {
                &&& spec_witnesses_decode(b@, n as nat) == Some(witnesses_of(ws@))
                &&& ws@.len() == n
                &&& forall|i: int|
                    0 <= i < ws@.len() ==> wf_witness(#[trigger] witnesses_of(ws@)[i])
            },
            Err(e) => spec_witnesses_decode(b@, n as nat) is None && e
                == CoreError::MalformedInput,
        },
    decreases n,
{
    if n == 0 {
        if b.len() == 0 {
            let empty: Vec<Witness> = Vec::new();
            proof {
                assert(witnesses_of(empty@) =~= Seq::<WitnessV>::empty());
            }
            return Ok(empty);
        }
        return Err(CoreError::MalformedInput);
    }
    if b.len() < 1 {
        return Err(CoreError::MalformedInput);
    }
    let t = b[0];
    if t == 0 {
        if b.len() < 129 {
            return Err(CoreError::MalformedInput);
        }
        let xpub = copy_range(b, 1, 64);
        let sig = copy_range(b, 65, 64);
        let rest = vstd::slice::slice_subrange(b, 129, b.len());
        proof {
            assert(rest@ =~= b@.skip(129));
            assert(xpub@ =~= b@.subrange(1, 65));
            assert(sig@ =~= b@.subrange(65, 129));
        }
        match witnesses_from_bytes(rest, n - 1) {
            Ok(mut ws) => {
                let w = Witness::OldUtxo(
                    Bip32PublicKey { xpub },
                    LegacyUtxoWitness { bytes: sig },
                );
                let ghost prev = ws@;
                ws.insert(0, w);
                proof {
                    assert(witnesses_of(ws@) =~= seq![w@] + witnesses_of(prev));
                    assert forall|k: int| 0 <= k < ws@.len() implies wf_witness(
                        #[trigger] witnesses_of(ws@)[k],
                    ) by {
                        if k > 0 {
                            assert(witnesses_of(ws@)[k] == witnesses_of(prev)[k - 1]);
                        }
                    }
                }
                Ok(ws)
            },
            Err(e) => Err(e),
        }
    } else if t == 1 || t == 2 {
        if b.len() < 65 {
            return Err(CoreError::MalformedInput);
        }
        let sig = copy_range(b, 1, 64);
        let rest = vstd::slice::slice_subrange(b, 65, b.len());
        proof {
            assert(rest@ =~= b@.skip(65));
            assert(sig@ =~= b@.subrange(1, 65));
        }
        match witnesses_from_bytes(rest, n - 1) {
            Ok(mut ws) => {
                let w = if t == 1 {
                    Witness::Utxo(UtxoWitness { bytes: sig })
                } else {
                    Witness::Account(AccountWitness { bytes: sig })
                };
                let ghost prev = ws@;
                ws.insert(0, w);
                proof {
                    assert(witnesses_of(ws@) =~= seq![w@] + witnesses_of(prev));
                    assert forall|k: int| 0 <= k < ws@.len() implies wf_witness(
                        #[trigger] witnesses_of(ws@)[k],
                    ) by {
                        if k > 0 {
                            assert(witnesses_of(ws@)[k] == witnesses_of(prev)[k - 1]);
                        }
                    }
                }
                Ok(ws)
            },
            Err(e) => Err(e),
        }
    } else {
        Err(CoreError::MalformedInput)
    }
}

/// A transaction: ordered inputs and outputs, an optional certificate
/// payload fixed at construction, and one witness per input once it has
/// been sealed.
#[derive(Clone, Debug)]
pub struct Transaction {
    pub extra: Option<crate::certificate::Certificate>,
    pub inputs: Vec<Input>,
    pub outputs: Vec<Output>,
    pub witnesses: Vec<Witness>,
}

impl View for Transaction {
    type V = TxV;

    open spec fn view(&self) -> TxV {
        TxV {
            extra: match &self.extra {
                Some(c) => Some(c@),
                None => None,
            },
            inputs: inputs_of(self.inputs@),
            outputs: outputs_of(self.outputs@),
            witnesses: witnesses_of(self.witnesses@),
        }
    }
}

/// Copy a transaction.
pub(crate) fn dup_tx(t: &Transaction) -> (r: Transaction)
    ensures
        r@ == t@,
{
    let extra = match &t.extra {
        Some(c) => Some(crate::certificate::dup_certificate(c)),
        None => None,
    };
    let mut inputs: Vec<Input> = Vec::new();
    let mut i: usize = 0;
    while i < t.inputs.len()
        invariant
            0 <= i <= t.inputs@.len(),
            inputs@.len() == i,
            forall|k: int| 0 <= k < i ==> #[trigger] inputs@[k]@ == t.inputs@[k]@,
        decreases t.inputs@.len() - i,
    {
        inputs.push(dup_input(&t.inputs[i]));
        i = i + 1;
    }
    let mut outputs: Vec<Output> = Vec::new();
    let mut j: usize = 0;
    while j < t.outputs.len()
        invariant
            0 <= j <= t.outputs@.len(),
            outputs@.len() == j,
            forall|k: int| 0 <= k < j ==> #[trigger] outputs@[k]@ == t.outputs@[k]@,
        decreases t.outputs@.len() - j,
    {
        outputs.push(dup_output(&t.outputs[j]));
        j = j + 1;
    }
    let mut witnesses: Vec<Witness> = Vec::new();
    let mut k: usize = 0;
    while k < t.witnesses.len()
        invariant
            0 <= k <= t.witnesses@.len(),
            witnesses@.len() == k,
            forall|x: int| 0 <= x < k ==> #[trigger] witnesses@[x]@ == t.witnesses@[x]@,
        decreases t.witnesses@.len() - k,
    {
        witnesses.push(dup_witness(&t.witnesses[k]));
        k = k + 1;
    }
    let r = Transaction { extra, inputs, outputs, witnesses };
    proof {
        assert(inputs_of(r.inputs@) =~= inputs_of(t.inputs@));
        assert(outputs_of(r.outputs@) =~= outputs_of(t.outputs@));
        assert(witnesses_of(r.witnesses@) =~= witnesses_of(t.witnesses@));
    }
    r
}

impl Transaction {
    /// Is the transaction well formed?
    pub open spec fn wf(&self) -> bool {
        wf_tx(self@)
    }

    /// How many inputs the transaction has.
    pub fn nb_inputs(&self) -> (r: usize)
        ensures
            r == self@.inputs.len(),
    {
        self.inputs.len()
    }

    /// How many outputs the transaction has.
    pub fn nb_outputs(&self) -> (r: usize)
        ensures
            r == self@.outputs.len(),
    {
        self.outputs.len()
    }

    /// The inputs, in order.
    pub fn inputs(&self) -> (r: Inputs)
        ensures
            inputs_of(r.items@) == self@.inputs,
    {
        let mut items: Vec<Input> = Vec::new();
        let mut i: usize = 0;
        while i < self.inputs.len()
            invariant
                0 <= i <= self.inputs@.len(),
                items@.len() == i,
                forall|k: int| 0 <= k < i ==> #[trigger] items@[k]@ == self.inputs@[k]@,
            decreases self.inputs@.len() - i,
        {
            items.push(dup_input(&self.inputs[i]));
            i = i + 1;
        }
        proof {
            assert(inputs_of(items@) =~= inputs_of(self.inputs@));
        }
        Inputs { items }
    }

    /// The outputs, in order.
    pub fn outputs(&self) -> (r: Outputs)
        ensures
            outputs_of(r.items@) == self@.outputs,
    {
        let mut items: Vec<Output> = Vec::new();
        let mut i: usize = 0;
        while i < self.outputs.len()
            invariant
                0 <= i <= self.outputs@.len(),
                items@.len() == i,
                forall|k: int| 0 <= k < i ==> #[trigger] items@[k]@ == self.outputs@[k]@,
            decreases self.outputs@.len() - i,
        {
            items.push(dup_output(&self.outputs[i]));
            i = i + 1;
        }
        proof {
            assert(outputs_of(items@) =~= outputs_of(self.outputs@));
        }
        Outputs { items }
    }

    /// Append the signed payload bytes to `v`.
    fn push_sign_data(&self, v: &mut Vec<u8>)
        requires
            self.wf(),
        ensures
            final(v)@ =~= old(v)@ + tx_sign_data(self@),
    {
        match &self.extra {
            None => v.push(0),
            Some(c) => {
                let tag: u8 = match c {
                    crate::certificate::Certificate::StakeDelegation(_) => 1,
                    crate::certificate::Certificate::OwnerStakeDelegation(_) => 2,
                    crate::certificate::Certificate::PoolRegistration(_) => 3,
                    crate::certificate::Certificate::PoolRetirement(_) => 4,
                    crate::certificate::Certificate::PoolUpdate(_) => 5,
                };
                v.push(tag);
                let cb = c.as_bytes();
                proof {
                    lemma_certificate_bytes_len(c@);
                }
                push_be(v, cb.len() as u128, 2);
                push_bytes(v, cb.as_slice());
            },
        }
        let nins = self.inputs.len();
        let nouts = self.outputs.len();
        v.push(nins as u8);
        v.push(nouts as u8);
        let ghost mid = v@;
        let mut i: usize = 0;
        while i < nins
            invariant
                0 <= i <= nins,
                nins == self.inputs@.len(),
                wf_inputs(inputs_of(self.inputs@)),
                v@ =~= mid + inputs_bytes(inputs_of(self.inputs@).subrange(0, i as int)),
            decreases nins - i,
        {
            proof {
                assert(inputs_of(self.inputs@).subrange(0, i + 1).drop_last() =~= inputs_of(
                    self.inputs@,
                ).subrange(0, i as int));
                assert(wf_input(inputs_of(self.inputs@)[i as int]));
            }
            let ib = self.inputs[i].as_bytes();
            push_bytes(v, ib.as_slice());
            i = i + 1;
        }
        proof {
            assert(inputs_of(self.inputs@).subrange(0, nins as int) =~= inputs_of(
                self.inputs@,
            ));
        }
        let ghost mid2 = v@;
        let mut j: usize = 0;
        while j < nouts
            invariant
                0 <= j <= nouts,
                nouts == self.outputs@.len(),
                wf_outputs(outputs_of(self.outputs@)),
                v@ =~= mid2 + outputs_bytes(outputs_of(self.outputs@).subrange(0, j as int)),
            decreases nouts - j,
        {
            proof {
                assert(wf_output(outputs_of(self.outputs@)[j as int]));
                assert(outputs_of(self.outputs@).subrange(0, j as int).push(
                    outputs_of(self.outputs@)[j as int],
                ) =~= outputs_of(self.outputs@).subrange(0, j + 1));
                lemma_outputs_bytes_snoc(
                    outputs_of(self.outputs@).subrange(0, j as int),
                    outputs_of(self.outputs@)[j as int],
                );
            }
            let ab = self.outputs[j].address.as_bytes();
            push_bytes(v, ab.as_slice());
            push_be(v, self.outputs[j].value.amount as u128, 8);
            j = j + 1;
        }
        proof {
            assert(outputs_of(self.outputs@).subrange(0, nouts as int) =~= outputs_of(
                self.outputs@,
            ));
            assert(v@ =~= old(v)@ + tx_sign_data(self@));
        }
    }

    /// The digest every witness signs: the Blake2b-256 digest of the
    /// signed payload.
    pub fn id(&self) -> (r: TransactionSignDataHash)
        requires
            self.wf(),
        ensures
            r.bytes@ == crate::crypto::blake2b256_of(tx_sign_data(self@)),
            r.wf(),
    {
        let mut v: Vec<u8> = Vec::new();
        self.push_sign_data(&mut v);
        TransactionSignDataHash { bytes: crate::crypto::blake2b_256(v.as_slice()) }
    }

    /// The canonical bytes of the whole transaction.
    pub fn as_bytes(&self) -> (r: Vec<u8>)
        requires
            self.wf(),
        ensures
            r@ == tx_bytes(self@),
    {
        let mut v: Vec<u8> = Vec::new();
        self.push_sign_data(&mut v);
        let nwit = self.witnesses.len();
        v.push(nwit as u8);
        let ghost mid = v@;
        let mut k: usize = 0;
        while k < nwit
            invariant
                0 <= k <= nwit,
                nwit == self.witnesses@.len(),
                v@ =~= mid + witnesses_bytes(witnesses_of(self.witnesses@).subrange(0, k as int)),
            decreases nwit - k,
        {
            proof {
                assert(witnesses_of(self.witnesses@).subrange(0, k as int).push(
                    witnesses_of(self.witnesses@)[k as int],
                ) =~= witnesses_of(self.witnesses@).subrange(0, k + 1));
                lemma_witnesses_bytes_snoc(
                    witnesses_of(self.witnesses@).subrange(0, k as int),
                    witnesses_of(self.witnesses@)[k as int],
                );
            }
            push_witness(&mut v, &self.witnesses[k]);
            k = k + 1;
        }
        proof {
            assert(witnesses_of(self.witnesses@).subrange(0, nwit as int) =~= witnesses_of(
                self.witnesses@,
            ));
            assert(v@ =~= tx_bytes(self@));
        }
        v
    }

    /// The transaction with the given witnesses, one per input in input
    /// order; fails unless the counts match.
    pub fn seal_with_witnesses(&self, witnesses: &Witnesses) -> (r: Result<
        Transaction,
        CoreError,
    >)
        ensures
            match r {
                Ok(t) => {
                    &&& witnesses.items@.len() == self@.inputs.len()
                    &&& t@.extra == self@.extra
                    &&& t@.inputs == self@.inputs
                    &&& t@.outputs == self@.outputs
                    &&& t@.witnesses == witnesses_of(witnesses.items@)
                },
                Err(e) => witnesses.items@.len() != self@.inputs.len() && e
                    == CoreError::WrongVariant,
            },
    {
        if witnesses.items.len() != self.inputs.len() {
            return Err(CoreError::WrongVariant);
        }
        let mut t = dup_tx(self);
        let mut ws: Vec<Witness> = Vec::new();
        let mut i: usize = 0;
        while i < witnesses.items.len()
            invariant
                0 <= i <= witnesses.items@.len(),
                ws@.len() == i,
                forall|k: int| 0 <= k < i ==> #[trigger] ws@[k]@ == witnesses.items@[k]@,
            decreases witnesses.items@.len() - i,
        {
            ws.push(dup_witness(&witnesses.items[i]));
            i = i + 1;
        }
        proof {
            assert(witnesses_of(ws@) =~= witnesses_of(witnesses.items@));
        }
        t.witnesses = ws;
        Ok(t)
    }

    /// Read a transaction from its canonical bytes.
    pub fn from_bytes(b: &[u8]) -> (r: Result<Transaction, CoreError>)
        ensures
            match r {
                Ok(t) => spec_tx_decode(b@) == Some(t@) && t.wf(),
                Err(e) => spec_tx_decode(b@) is None && e == CoreError::MalformedInput,
            },
    {
        if b.len() < 1 {
            return Err(CoreError::MalformedInput);
        }
        let tag = b[0];
        if tag > 5 {
            return Err(CoreError::MalformedInput);
        }
        let mut o: usize = 1;
        let mut extra: Option<crate::certificate::Certificate> = None;
        if tag != 0 {
            if b.len() < 3 {
                return Err(CoreError::MalformedInput);
            }
            let clen_wide = crate::bytes::read_be(b, 1, 2);
            proof {
                crate::bytes::lemma_be_val_bounds(b@.subrange(1, 3));
                assert(crate::bytes::pow256(2) == 65536) by {
                    reveal_with_fuel(crate::bytes::pow256, 3);
                }
            }
            let clen = clen_wide as usize;
            if b.len() < 3 + clen + 2 {
                return Err(CoreError::MalformedInput);
            }
            let cb = vstd::slice::slice_subrange(b, 3, 3 + clen);
            proof {
                assert(cb@ =~= b@.subrange(3, 3 + clen));
            }
            if tag == 1 {
                match crate::certificate::StakeDelegation::from_bytes(cb) {
                    Ok(c) => {
                        extra = Some(crate::certificate::Certificate::StakeDelegation(c));
                    },
                    Err(_) => {
                        return Err(CoreError::MalformedInput);
                    },
                }
            } else if tag == 2 {
                match crate::certificate::OwnerStakeDelegation::from_bytes(cb) {
                    Ok(c) => {
                        extra = Some(crate::certificate::Certificate::OwnerStakeDelegation(c));
                    },
                    Err(_) => {
                        return Err(CoreError::MalformedInput);
                    },
                }
            } else if tag == 3 {
                match crate::certificate::PoolRegistration::from_bytes(cb) {
                    Ok(c) => {
                        extra = Some(crate::certificate::Certificate::PoolRegistration(c));
                    },
                    Err(_) => {
                        return Err(CoreError::MalformedInput);
                    },
                }
            } else if tag == 4 {
                match crate::certificate::PoolRetirement::from_bytes(cb) {
                    Ok(c) => {
                        extra = Some(crate::certificate::Certificate::PoolRetirement(c));
                    },
                    Err(_) => {
                        return Err(CoreError::MalformedInput);
                    },
                }
            } else {
                match crate::certificate::PoolUpdate::from_bytes(cb) {
                    Ok(c) => {
                        extra = Some(crate::certificate::Certificate::PoolUpdate(c));
                    },
                    Err(_) => {
                        return Err(CoreError::MalformedInput);
                    },
                }
            }
            o = 3 + clen;
        }
        if b.len() < o + 2 {
            return Err(CoreError::MalformedInput);
        }
        let nins = b[o] as usize;
        let nouts = b[o + 1];
        if b.len() < o + 2 + 41 * nins {
            return Err(CoreError::MalformedInput);
        }
        let bl = b.len();
        let mut inputs: Vec<Input> = Vec::new();
        let mut i: usize = 0;
        while i < nins
            invariant
                0 <= i <= nins,
                nins <= 255,
                bl == b@.len(),
                o + 2 + 41 * nins <= b@.len(),
                inputs@.len() == i,
                forall|k: int|
                    0 <= k < i ==> #[trigger] inputs@[k]@ == input_at(b@, o + 2 + 41 * k)
                        && wf_input(inputs@[k]@),
            decreases nins - i,
        {
            let off = o + 2 + 41 * i;
            let ib = vstd::slice::slice_subrange(b, off, off + 41);
            proof {
                assert(ib@ =~= b@.subrange(off as int, off + 41));
            }
            match Input::from_bytes(ib) {
                Ok(x) => {
                    proof {
                        assert(b@[off as int] == ib@[0]);
                        assert(b@.subrange(off + 1, off + 9) =~= ib@.subrange(1, 9));
                        assert(b@.subrange(off + 9, off + 41) =~= ib@.subrange(9, 41));
                        assert(x@ == input_at(b@, off as int));
                    }
                    inputs.push(x);
                },
                Err(_) => {
                    proof {
                        assert(false);
                    }
                    return Err(CoreError::MalformedInput);
                },
            }
            i = i + 1;
        }
        let rest1 = vstd::slice::slice_subrange(b, o + 2 + 41 * nins, b.len());
        proof {
            assert(rest1@ =~= b@.skip(o + 2 + 41 * nins));
        }
        let (outputs, used) = match outputs_from_bytes(rest1, nouts) {
            Ok(p) => p,
            Err(_) => {
                return Err(CoreError::MalformedInput);
            },
        };
        let rest2 = vstd::slice::slice_subrange(rest1, used, rest1.len());
        proof {
            assert(rest2@ =~= rest1@.skip(used as int));
        }
        if rest2.len() < 1 {
            return Err(CoreError::MalformedInput);
        }
        let nwit = rest2[0];
        let wtail = vstd::slice::slice_subrange(rest2, 1, rest2.len());
        proof {
            assert(wtail@ =~= rest2@.skip(1));
        }
        let witnesses = match witnesses_from_bytes(wtail, nwit) {
            Ok(ws) => ws,
            Err(_) => {
                return Err(CoreError::MalformedInput);
            },
        };
        let t = Transaction { extra, inputs, outputs, witnesses };
        proof {
            assert(inputs_of(t.inputs@) =~= Seq::new(
                nins as nat,
                |k: int| input_at(b@, o + 2 + 41 * k),
            ));
        }
        Ok(t)
    }
}

} // verus!

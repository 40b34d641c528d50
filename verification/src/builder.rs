//! Building a transaction: accumulate inputs and outputs in order,
//! optionally fix one certificate payload, then finalize under an
//! output policy that disposes of the unspent excess.

use vstd::prelude::*;
use vstd::string::StringExecFns;

use crate::address::Address;
use crate::address::dup_address;
use crate::certificate::Certificate;
use crate::certificate::dup_certificate;
use crate::error::CoreError;
use crate::fee::Fee;
use crate::fee::FeeVariant;
use crate::fee::LinearFee;
use crate::fee::spec_linear_fee;
use crate::transaction::Input;
use crate::transaction::InputV;
use crate::transaction::Output;
use crate::transaction::OutputV;
use crate::transaction::Transaction;
use crate::transaction::dup_input;
use crate::transaction::dup_output;
use crate::transaction::input_value;
use crate::transaction::inputs_of;
use crate::transaction::outputs_of;
use crate::value::Value;

verus! {

/// The sum of the values carried by the inputs.
pub open spec fn inputs_total(is: Seq<InputV>) -> int
    decreases is.len(),
{
    if is.len() == 0 {
        0
    } else {
        inputs_total(is.drop_last()) + input_value(is.last())
    }
}

/// The sum of the values sent by the outputs.
pub open spec fn outputs_total(os: Seq<OutputV>) -> int
    decreases os.len(),
{
    if os.len() == 0 {
        0
    } else {
        outputs_total(os.drop_last()) + os.last().value
    }
}

proof fn lemma_inputs_total_bounds(is: Seq<InputV>)
    ensures
        0 <= inputs_total(is) <= is.len() * 0xffff_ffff_ffff_ffff,
    decreases is.len(),
{
    if is.len() > 0 {
        lemma_inputs_total_bounds(is.drop_last());
    }
}

proof fn lemma_outputs_total_bounds(os: Seq<OutputV>)
    ensures
        0 <= outputs_total(os) <= os.len() * 0xffff_ffff_ffff_ffff,
    decreases os.len(),
{
    if os.len() > 0 {
        lemma_outputs_total_bounds(os.drop_last());
    }
}

/// What is left once the outputs are paid: the sign and magnitude of
/// the difference between what comes in and what goes out.
#[derive(Clone, Copy, Debug)]
pub enum Balance {
    /// More comes in than goes out, by the carried amount.
    Positive(Value),
    /// More goes out than comes in, by the carried amount.
    Negative(Value),
    /// What comes in and what goes out agree exactly.
    Zero,
}

impl Balance {
    /// A one-word rendering of the sign.
    pub fn get_sign(&self) -> (r: String)
        ensures
            match self {
                Balance::Positive(_) => r@ == "positive"@,
                Balance::Negative(_) => r@ == "negative"@,
                Balance::Zero => r@ == "zero"@,
            },
    {
        match self {
            Balance::Positive(_) => String::from_str("positive"),
            Balance::Negative(_) => String::from_str("negative"),
            Balance::Zero => String::from_str("zero"),
        }
    }

    /// Is more coming in than going out?
    pub fn is_positive(&self) -> (r: bool)
        ensures
            r == (self matches Balance::Positive(_)),
    {
        match self {
            Balance::Positive(_) => true,
            _ => false,
        }
    }

    /// Is more going out than coming in?
    pub fn is_negative(&self) -> (r: bool)
        ensures
            r == (self matches Balance::Negative(_)),
    {
        match self {
            Balance::Negative(_) => true,
            _ => false,
        }
    }

    /// Do the two sides agree exactly?
    pub fn is_zero(&self) -> (r: bool)
        ensures
            r == (self matches Balance::Zero),
    {
        match self {
            Balance::Zero => true,
            _ => false,
        }
    }

    /// The magnitude of the difference, whatever its sign.
    pub fn get_value(&self) -> (r: Value)
        ensures
            match self {
                Balance::Positive(v) => r.amount == v.amount,
                Balance::Negative(v) => r.amount == v.amount,
                Balance::Zero => r.amount == 0,
            },
    {
        match self {
            Balance::Positive(v) => Value { amount: v.amount },
            Balance::Negative(v) => Value { amount: v.amount },
            Balance::Zero => Value { amount: 0 },
        }
    }
}

/// What to do with the unspent excess when a transaction is finalized.
#[derive(Clone, Debug)]
pub enum OutputPolicy {
    /// Donate the whole excess to the fee.
    Forget,
    /// Send the excess to the one given change address.
    One(Address),
}

impl OutputPolicy {
    /// Donate the excess to the fee.
    pub fn forget() -> (r: OutputPolicy)
        ensures
            r is Forget,
    {
        OutputPolicy::Forget
    }

    /// Send the excess to the given address.
    pub fn one(address: &Address) -> (r: OutputPolicy)
        ensures
            r matches OutputPolicy::One(a) && a@ == address@,
    {
        OutputPolicy::One(dup_address(address))
    }
}

/// A transaction under construction: inputs and outputs accumulate in
/// order, the optional certificate payload is fixed at creation, and
/// the witnesses come only after finalization.
#[derive(Clone, Debug)]
pub struct TransactionBuilder {
    pub extra: Option<Certificate>,
    pub inputs: Vec<Input>,
    pub outputs: Vec<Output>,
}

impl TransactionBuilder {
    /// The linear fee the builder's transaction would owe with
    /// `extra_outputs` more outputs than it now has.
    pub open spec fn spec_fee(&self, f: LinearFee, extra_outputs: int) -> int {
        spec_linear_fee(
            f,
            self.inputs@.len() as int,
            self.outputs@.len() as int + extra_outputs,
            self.extra is Some,
        )
    }

    /// A builder for a transaction without a certificate payload.
    pub fn new_no_payload() -> (r: TransactionBuilder)
        ensures
            r.extra is None,
            r.inputs@.len() == 0,
            r.outputs@.len() == 0,
    {
        TransactionBuilder { extra: None, inputs: Vec::new(), outputs: Vec::new() }
    }

    /// A builder for a transaction carrying the given certificate.
    pub fn new_payload(cert: &Certificate) -> (r: TransactionBuilder)
        ensures
            r.extra matches Some(c) && c@ == cert@,
            r.inputs@.len() == 0,
            r.outputs@.len() == 0,
    {
        TransactionBuilder { extra: Some(dup_certificate(cert)), inputs: Vec::new(), outputs: Vec::new() }
    }

    /// Append an input, keeping the order of insertion.
    pub fn add_input(&mut self, input: &Input)
        requires
            old(self).inputs@.len() < 255,
        ensures
            final(self).inputs@.len() == old(self).inputs@.len() + 1,
            final(self).inputs@.last()@ == input@,
            forall|i: int|
                0 <= i < old(self).inputs@.len() ==> final(self).inputs@[i]
                    == old(self).inputs@[i],
            final(self).outputs@ == old(self).outputs@,
            final(self).extra == old(self).extra,
    {
        self.inputs.push(dup_input(input));
    }

    /// Append an output, keeping the order of insertion.  One slot of
    /// the one-byte output count stays free for a change output.
    pub fn add_output(&mut self, address: &Address, value: &Value)
        requires
            old(self).outputs@.len() < 254,
        ensures
            final(self).outputs@.len() == old(self).outputs@.len() + 1,
            final(self).outputs@.last()@ == (OutputV { address: address@, value: value.amount }),
            forall|i: int|
                0 <= i < old(self).outputs@.len() ==> final(self).outputs@[i]
                    == old(self).outputs@[i],
            final(self).inputs@ == old(self).inputs@,
            final(self).extra == old(self).extra,
    {
        self.outputs.push(Output { address: dup_address(address), value: Value { amount: value.amount } });
    }

    /// The sum of the input values, which fits 128 bits.
    fn total_in(&self) -> (r: u128)
        requires
            self.inputs@.len() <= 255,
        ensures
            r == inputs_total(inputs_of(self.inputs@)),
    {
        let n = self.inputs.len();
        let mut acc: u128 = 0;
        let mut i: usize = 0;
        while i < n
            invariant
                0 <= i <= n,
                n == self.inputs@.len() <= 255,
                acc == inputs_total(inputs_of(self.inputs@).subrange(0, i as int)),
                acc <= i * 0xffff_ffff_ffff_ffff,
            decreases n - i,
        {
            proof {
                assert(inputs_of(self.inputs@).subrange(0, i + 1).drop_last() =~= inputs_of(
                    self.inputs@,
                ).subrange(0, i as int));
            }
            let v = match &self.inputs[i] {
                Input::Utxo(p) => p.value.amount,
                Input::Account(_, val) => val.amount,
            };
            acc = acc + v as u128;
            i = i + 1;
        }
        proof {
            assert(inputs_of(self.inputs@).subrange(0, n as int) =~= inputs_of(self.inputs@));
        }
        acc
    }

    /// The sum of the output values, which fits 128 bits.
    fn total_out(&self) -> (r: u128)
        requires
            self.outputs@.len() <= 255,
        ensures
            r == outputs_total(outputs_of(self.outputs@)),
    {
        let n = self.outputs.len();
        let mut acc: u128 = 0;
        let mut i: usize = 0;
        while i < n
            invariant
                0 <= i <= n,
                n == self.outputs@.len() <= 255,
                acc == outputs_total(outputs_of(self.outputs@).subrange(0, i as int)),
                acc <= i * 0xffff_ffff_ffff_ffff,
            decreases n - i,
        {
            proof {
                assert(outputs_of(self.outputs@).subrange(0, i + 1).drop_last() =~= outputs_of(
                    self.outputs@,
                ).subrange(0, i as int));
            }
            acc = acc + self.outputs[i].value.amount as u128;
            i = i + 1;
        }
        proof {
            assert(outputs_of(self.outputs@).subrange(0, n as int) =~= outputs_of(
                self.outputs@,
            ));
        }
        acc
    }

    /// The linear fee owed with `extra_outputs` more outputs, exactly,
    /// in 128 bits.
    fn fee_with(&self, f: &LinearFee, extra_outputs: u8) -> (r: u128)
        requires
            self.inputs@.len() <= 255,
            self.outputs@.len() <= 255,
        ensures
            r == self.spec_fee(*f, extra_outputs as int),
            r <= 768 * 0xffff_ffff_ffff_ffff,
    {
        let n: u128 = self.inputs.len() as u128 + self.outputs.len() as u128
            + extra_outputs as u128;
        proof {
            assert(f.coefficient as int * n as int <= u64::MAX as int * 766) by (nonlinear_arith)
                requires
                    0 <= f.coefficient <= u64::MAX,
                    0 <= n <= 765,
            ;
        }
        f.constant as u128 + f.coefficient as u128 * n + (match &self.extra {
            Some(_) => f.certificate as u128,
            None => 0u128,
        })
    }

    /// The balance before any fee: what comes in less what goes out.
    pub fn get_balance_without_fee(&self) -> (r: Result<Balance, CoreError>)
        requires
            self.inputs@.len() <= 255,
            self.outputs@.len() <= 255,
        ensures
            ({
                let d = inputs_total(inputs_of(self.inputs@)) - outputs_total(
                    outputs_of(self.outputs@),
                );
                match r {
                    Ok(b) => match b {
                        Balance::Positive(v) => d > 0 && v.amount == d,
                        Balance::Negative(v) => d < 0 && v.amount == -d,
                        Balance::Zero => d == 0,
                    },
                    Err(e) => !(-u64::MAX <= d <= u64::MAX) && e == CoreError::ArithmeticError,
                }
            }),
    {
        let tin = self.total_in();
        let tout = self.total_out();
        if tin == tout {
            Ok(Balance::Zero)
        } else if tin > tout {
            let d = tin - tout;
            if d > u64::MAX as u128 {
                return Err(CoreError::ArithmeticError);
            }
            Ok(Balance::Positive(Value { amount: d as u64 }))
        } else {
            let d = tout - tin;
            if d > u64::MAX as u128 {
                return Err(CoreError::ArithmeticError);
            }
            Ok(Balance::Negative(Value { amount: d as u64 }))
        }
    }

    /// The balance after the fee: what comes in, less what goes out,
    /// less what the given algorithm charges for this transaction.
    pub fn get_balance(&self, fee: &Fee) -> (r: Result<Balance, CoreError>)
        requires
            self.inputs@.len() <= 255,
            self.outputs@.len() <= 255,
        ensures
            ({
                let FeeVariant::Linear(f) = fee.variant;
                let d = inputs_total(inputs_of(self.inputs@)) - outputs_total(
                    outputs_of(self.outputs@),
                ) - self.spec_fee(f, 0);
                match r {
                    Ok(b) => match b {
                        Balance::Positive(v) => d > 0 && v.amount == d,
                        Balance::Negative(v) => d < 0 && v.amount == -d,
                        Balance::Zero => d == 0,
                    },
                    Err(e) => !(-u64::MAX <= d <= u64::MAX) && e == CoreError::ArithmeticError,
                }
            }),
    {
        let FeeVariant::Linear(f) = fee.variant;
        let tin = self.total_in();
        let charge = self.fee_with(&f, 0);
        let tout = self.total_out();
        proof {
            lemma_outputs_total_bounds(outputs_of(self.outputs@));
            assert(f.coefficient as int * (self.inputs@.len() + self.outputs@.len())
                <= u64::MAX as int * 510) by (nonlinear_arith)
                requires
                    0 <= f.coefficient <= u64::MAX,
                    0 <= self.inputs@.len() + self.outputs@.len() <= 510,
            ;
        }
        let spend: u128 = tout + charge;
        if tin == spend {
            Ok(Balance::Zero)
        } else if tin > spend {
            let d = tin - spend;
            if d > u64::MAX as u128 {
                return Err(CoreError::ArithmeticError);
            }
            Ok(Balance::Positive(Value { amount: d as u64 }))
        } else {
            let d = spend - tin;
            if d > u64::MAX as u128 {
                return Err(CoreError::ArithmeticError);
            }
            Ok(Balance::Negative(Value { amount: d as u64 }))
        }
    }

    /// Finalize under an output policy, before any witness is made.
    ///
    /// With `Forget`, the inputs must cover the outputs and the fee;
    /// the whole excess goes to the fee and the outputs stay as they
    /// are.  With `One(address)`, a change output for the remainder is
    /// appended when, counting that output in the fee, a positive
    /// remainder is left; otherwise the transaction must still cover
    /// its own fee and any smaller excess goes to the fee.  The result
    /// carries no witnesses yet.
    pub fn finalize(&self, fee: &Fee, output_policy: &OutputPolicy) -> (r: Result<
        Transaction,
        CoreError,
    >)
        requires
            self.inputs@.len() <= 255,
            self.outputs@.len() <= 254,
        ensures
            ({
                let FeeVariant::Linear(f) = fee.variant;
                let tin = inputs_total(inputs_of(self.inputs@));
                let tout = outputs_total(outputs_of(self.outputs@));
                let fee0 = self.spec_fee(f, 0);
                let fee1 = self.spec_fee(f, 1);
                match r {
                    Ok(t) => {
                        &&& t@.extra == (match &self.extra {
                            Some(c) => Some(c@),
                            None => None,
                        })
                        &&& t@.inputs == inputs_of(self.inputs@)
                        &&& t@.witnesses.len() == 0
                        &&& match output_policy {
                            OutputPolicy::Forget => tin >= tout + fee0 && t@.outputs
                                == outputs_of(self.outputs@),
                            OutputPolicy::One(addr) => {
                                if tin >= tout + fee1 + 1 && tin - tout - fee1 <= u64::MAX {
                                    t@.outputs == outputs_of(self.outputs@).push(
                                        OutputV {
                                            address: addr@,
                                            value: (tin - tout - fee1) as u64,
                                        },
                                    )
                                } else {
                                    tin >= tout + fee0 && t@.outputs == outputs_of(
                                        self.outputs@,
                                    )
                                }
                            },
                        }
                    },
                    Err(e) => {
                        &&& e == CoreError::ArithmeticError
                        &&& match output_policy {
                            OutputPolicy::Forget => tin < tout + fee0,
                            OutputPolicy::One(_) => tin < tout + fee0 && !(tin >= tout + fee1
                                + 1 && tin - tout - fee1 <= u64::MAX),
                        }
                    },
                }
            }),
    {
        let FeeVariant::Linear(f) = fee.variant;
        let tin = self.total_in();
        let tout = self.total_out();
        let fee0 = self.fee_with(&f, 0);
        let fee1 = self.fee_with(&f, 1);
        proof {
            lemma_outputs_total_bounds(outputs_of(self.outputs@));
            lemma_inputs_total_bounds(inputs_of(self.inputs@));
        }
        let base = Transaction {
            extra: match &self.extra {
                Some(c) => Some(dup_certificate(c)),
                None => None,
            },
            inputs: dup_inputs(&self.inputs),
            outputs: dup_outputs(&self.outputs),
            witnesses: Vec::new(),
        };
        proof {
            assert(witnesses_empty(base.witnesses@));
        }
        match output_policy {
            OutputPolicy::Forget => {
                if tin >= tout + fee0 {
                    Ok(base)
                } else {
                    Err(CoreError::ArithmeticError)
                }
            },
            OutputPolicy::One(addr) => {
                if tin >= tout + fee1 + 1 && tin - tout - fee1 <= u64::MAX as u128 {
                    let rem = (tin - tout - fee1) as u64;
                    let mut t = base;
                    let change = Output {
                        address: dup_address(addr),
                        value: Value { amount: rem },
                    };
                    let ghost prev = t.outputs@;
                    t.outputs.push(change);
                    proof {
                        assert(outputs_of(t.outputs@) =~= outputs_of(prev).push(change@));
                    }
                    Ok(t)
                } else if tin >= tout + fee0 {
                    Ok(base)
                } else {
                    Err(CoreError::ArithmeticError)
                }
            },
        }
    }
}

/// Is the witness list empty?
spec fn witnesses_empty(ws: Seq<crate::transaction::Witness>) -> bool {
    crate::transaction::witnesses_of(ws).len() == 0
}

/// Copy an input vector.
fn dup_inputs(is: &Vec<Input>) -> (r: Vec<Input>)
    ensures
        inputs_of(r@) == inputs_of(is@),
        r@.len() == is@.len(),
{
    let mut out: Vec<Input> = Vec::new();
    let mut i: usize = 0;
    while i < is.len()
        invariant
            0 <= i <= is@.len(),
            out@.len() == i,
            forall|k: int| 0 <= k < i ==> #[trigger] out@[k]@ == is@[k]@,
        decreases is@.len() - i,
    {
        out.push(dup_input(&is[i]));
        i = i + 1;
    }
    proof {
        assert(inputs_of(out@) =~= inputs_of(is@));
    }
    out
}

/// Copy an output vector.
fn dup_outputs(os: &Vec<Output>) -> (r: Vec<Output>)
    ensures
        outputs_of(r@) == outputs_of(os@),
        r@.len() == os@.len(),
{
    let mut out: Vec<Output> = Vec::new();
    let mut i: usize = 0;
    while i < os.len()
        invariant
            0 <= i <= os@.len(),
            out@.len() == i,
            forall|k: int| 0 <= k < i ==> #[trigger] out@[k]@ == os@[k]@,
        decreases os@.len() - i,
    {
        out.push(dup_output(&os[i]));
        i = i + 1;
    }
    proof {
        assert(outputs_of(out@) =~= outputs_of(os@));
    }
    out
}

} // verus!

//! The linear fee algorithm: a constant, a per-input-and-output
//! coefficient, and a flat surcharge when a certificate is present.
//! The fee reads only the counts and the certificate presence of a
//! transaction, never its amounts.

use vstd::prelude::*;

use crate::transaction::Transaction;
use crate::value::Value;

verus! {

/// The coefficients of the linear fee formula.
#[derive(Clone, Copy, Debug, PartialEq, Eq, Structural)]
pub struct LinearFee {
    pub constant: u64,
    pub coefficient: u64,
    pub certificate: u64,
}

/// The supported fee algorithms.  The linear formula is the only one;
/// the variant leaves room for others without changing callers.
#[derive(Clone, Copy, Debug)]
pub enum FeeVariant {
    Linear(LinearFee),
}

/// A fee algorithm.
#[derive(Clone, Copy, Debug)]
pub struct Fee {
    pub variant: FeeVariant,
}

/// The fee owed by a transaction with the given counts:
/// `constant + coefficient * (inputs + outputs)`, plus the certificate
/// surcharge when a certificate is present.
pub open spec fn spec_linear_fee(f: LinearFee, nins: int, nouts: int, has_cert: bool) -> int {
    f.constant + f.coefficient * (nins + nouts) + (if has_cert {
        f.certificate as int
    } else {
        0
    })
}

impl Fee {
    /// The linear algorithm with the given coefficients.
    pub fn linear_fee(constant: &Value, coefficient: &Value, certificate: &Value) -> (r: Fee)
        ensures
            r.variant == FeeVariant::Linear(
                LinearFee {
                    constant: constant.amount,
                    coefficient: coefficient.amount,
                    certificate: certificate.amount,
                },
            ),
    {
        Fee {
            variant: FeeVariant::Linear(
                LinearFee {
                    constant: constant.amount,
                    coefficient: coefficient.amount,
                    certificate: certificate.amount,
                },
            ),
        }
    }

    /// The fee the transaction owes, from its counts and certificate
    /// presence alone; the largest representable amount where the
    /// formula runs past it.
    pub fn calculate(&self, tx: &Transaction) -> (r: Value)
        ensures
            ({
                let FeeVariant::Linear(f) = self.variant;
                let fee = spec_linear_fee(
                    f,
                    tx@.inputs.len() as int,
                    tx@.outputs.len() as int,
                    tx@.extra is Some,
                );
                if fee <= u64::MAX {
                    r.amount == fee
                } else {
                    r.amount == u64::MAX
                }
            }),
    {
        let FeeVariant::Linear(f) = self.variant;
        let nins = tx.nb_inputs();
        let nouts = tx.nb_outputs();
        let n: u128 = nins as u128 + nouts as u128;
        let cert: u128 = match &tx.extra {
            Some(_) => f.certificate as u128,
            None => 0,
        };
        if f.coefficient > 0 && n > u64::MAX as u128 {
            proof {
                assert(f.coefficient * (nins + nouts) >= 1 * (nins + nouts)) by (nonlinear_arith)
                    requires
                        f.coefficient >= 1,
                        nins + nouts >= 0,
                ;
            }
            return Value { amount: u64::MAX };
        }
        let prod: u128 = if f.coefficient == 0 {
            0
        } else {
            proof {
                assert(f.coefficient as int * n as int <= u64::MAX as int * u64::MAX as int)
                    by (nonlinear_arith)
                    requires
                        0 <= f.coefficient <= u64::MAX,
                        0 <= n <= u64::MAX,
                ;
            }
            f.coefficient as u128 * n
        };
        proof {
            assert(u64::MAX as int * u64::MAX as int + u64::MAX as int + u64::MAX as int
                <= u128::MAX as int) by (nonlinear_arith);
        }
        let total: u128 = f.constant as u128 + prod + cert;
        if total > u64::MAX as u128 {
            Value { amount: u64::MAX }
        } else {
            Value { amount: total as u64 }
        }
    }
}

} // verus!

//! Monetary amounts and their base-10 string form.
//!
//! `Value` wraps an unsigned 64-bit amount whose arithmetic fails on
//! overflow or underflow instead of wrapping.  `U128` wraps a 128-bit
//! number used for pool serials.  Both convert to and from canonical
//! decimal ASCII strings (no separators, no leading zeros on output).

use vstd::prelude::*;
use vstd::string::StrSliceExecFns;
use vstd::string::StringExecFns;
use vstd::string::StringSliceAdditionalSpecFns;

use crate::bytes::be_val;
use crate::error::CoreError;

verus! {

/// Is `c` an ASCII decimal digit?
pub open spec fn is_digit_char(c: char) -> bool {
    48 <= c as int <= 57
}

/// The numeric value of an ASCII decimal digit.
pub open spec fn digit_val(c: char) -> int {
    c as int - 48
}

/// Is `s` a well-formed decimal string: at least one character, digits only?
pub open spec fn is_dec_seq(s: Seq<char>) -> bool {
    s.len() >= 1 && forall|i: int| 0 <= i < s.len() ==> is_digit_char(#[trigger] s[i])
}

/// The number denoted by the digit string `s`, most significant digit first.
pub open spec fn dec_val(s: Seq<char>) -> int
    decreases s.len(),
{
    if s.len() == 0 {
        0
    } else {
        dec_val(s.drop_last()) * 10 + digit_val(s.last())
    }
}

/// The ASCII digit character for `d`.
pub open spec fn digit_char(d: int) -> char {
    if d == 0 { '0' }
    else if d == 1 { '1' }
    else if d == 2 { '2' }
    else if d == 3 { '3' }
    else if d == 4 { '4' }
    else if d == 5 { '5' }
    else if d == 6 { '6' }
    else if d == 7 { '7' }
    else if d == 8 { '8' }
    else { '9' }
}

/// The canonical decimal rendering of `n`: no leading zeros, `0` for zero.
pub open spec fn dec_digits_of(n: nat) -> Seq<char>
    decreases n,
{
    if n < 10 {
        seq![digit_char(n as int)]
    } else {
        dec_digits_of(n / 10) + seq![digit_char(n as int % 10)]
    }
}

/// Digit characters denote their numeric value.
proof fn lemma_digit_char_val(d: int)
    requires
        0 <= d <= 9,
    ensures
        is_digit_char(digit_char(d)),
        digit_val(digit_char(d)) == d,
{
}

/// The canonical rendering of `n` is a digit string denoting `n`.
pub proof fn lemma_dec_digits_of_val(n: nat)
    ensures
        is_dec_seq(dec_digits_of(n)),
        dec_val(dec_digits_of(n)) == n,
    decreases n,
{
    if n < 10 {
        lemma_digit_char_val(n as int);
        let s = dec_digits_of(n);
        assert(s =~= seq![digit_char(n as int)]);
        assert(s.last() == digit_char(n as int));
        assert(s.drop_last() =~= Seq::<char>::empty());
        assert(dec_val(s.drop_last()) == 0);
        assert(dec_val(s) == digit_val(digit_char(n as int)));
    } else {
        lemma_dec_digits_of_val(n / 10);
        lemma_digit_char_val(n as int % 10);
        let s = dec_digits_of(n);
        assert(s.drop_last() =~= dec_digits_of(n / 10));
        assert(s.last() == digit_char(n as int % 10));
    }
}

/// The canonical rendering has no leading zero except for zero itself.
pub proof fn lemma_dec_digits_of_canonical(n: nat)
    ensures
        n > 0 ==> dec_digits_of(n)[0] != '0',
        n == 0 ==> dec_digits_of(n) =~= seq!['0'],
    decreases n,
{
    if n >= 10 {
        lemma_dec_digits_of_canonical(n / 10);
    }
}

/// Prefix values only grow as more digits are read.
proof fn lemma_dec_val_monotone(s: Seq<char>, i: int, j: int)
    requires
        0 <= i <= j <= s.len(),
        forall|k: int| 0 <= k < s.len() ==> is_digit_char(#[trigger] s[k]),
    ensures
        dec_val(s.subrange(0, i)) <= dec_val(s.subrange(0, j)),
        0 <= dec_val(s.subrange(0, i)),
    decreases j - i,
{
    lemma_dec_val_nonneg(s.subrange(0, i));
    if i < j {
        lemma_dec_val_monotone(s, i, j - 1);
        let p = s.subrange(0, j);
        assert(p.drop_last() =~= s.subrange(0, j - 1));
        lemma_dec_val_nonneg(p.drop_last());
    }
}

/// A digit string denotes a non-negative number.
proof fn lemma_dec_val_nonneg(s: Seq<char>)
    requires
        forall|k: int| 0 <= k < s.len() ==> is_digit_char(#[trigger] s[k]),
    ensures
        dec_val(s) >= 0,
    decreases s.len(),
{
    if s.len() > 0 {
        lemma_dec_val_nonneg(s.drop_last());
    }
}

/// The single-character string holding the ASCII digit `d`.
fn digit_str(d: u8) -> (r: &'static str)
    requires
        d < 10,
    ensures
        r@ =~= seq![digit_char(d as int)],
{
    proof {
        reveal_strlit("0");
        reveal_strlit("1");
        reveal_strlit("2");
        reveal_strlit("3");
        reveal_strlit("4");
        reveal_strlit("5");
        reveal_strlit("6");
        reveal_strlit("7");
        reveal_strlit("8");
        reveal_strlit("9");
    }
    match d {
        0 => "0",
        1 => "1",
        2 => "2",
        3 => "3",
        4 => "4",
        5 => "5",
        6 => "6",
        7 => "7",
        8 => "8",
        _ => "9",
    }
}

/// Append the canonical decimal rendering of `n` to `s`.
pub(crate) fn push_dec_u64(s: &mut String, n: u64)
    ensures
        final(s)@ =~= old(s)@ + dec_digits_of(n as nat),
    decreases n,
{
    if n < 10 {
        s.append(digit_str(n as u8));
    } else {
        push_dec_u64(s, n / 10);
        s.append(digit_str((n % 10) as u8));
    }
}

/// Append the canonical decimal rendering of `n` to `s`.
fn push_dec_u128(s: &mut String, n: u128)
    ensures
        final(s)@ =~= old(s)@ + dec_digits_of(n as nat),
    decreases n,
{
    if n < 10 {
        s.append(digit_str(n as u8));
    } else {
        push_dec_u128(s, n / 10);
        s.append(digit_str((n % 10) as u8));
    }
}

/// Parse `s` as a decimal number no greater than `max`.
///
/// Returns the denoted number exactly when `s` is a non-empty all-digit
/// string whose value fits; reports why otherwise.
pub(crate) fn parse_dec(s: &str, max: u128) -> (r: Result<u128, CoreError>)
    requires
        max >= 9,
    ensures
        match r {
            Ok(v) => is_dec_seq(s@) && dec_val(s@) == v && v <= max,
            Err(e) => {
                &&& !(is_dec_seq(s@) && dec_val(s@) <= max)
                &&& (e == CoreError::InvalidEncoding || e == CoreError::ArithmeticError)
            },
        },
{
    if !s.is_ascii() {
        // a non-ASCII character is never a digit
        assert(!is_dec_seq(s@)) by {
            if is_dec_seq(s@) {
                assert forall|i: int| 0 <= i < s@.len() implies '\0' <= #[trigger] s@[i]
                    <= '\u{7f}' by {
                    assert(is_digit_char(s@[i]));
                }
                assert(vstd::string::is_ascii(s));
            }
        }
        return Err(CoreError::InvalidEncoding);
    }
    let bytes = s.as_bytes();
    let n = bytes.len();
    proof {
        vstd::string::is_ascii_spec_bytes(s);
        assert(n == s@.len());
    }
    if n == 0 {
        return Err(CoreError::InvalidEncoding);
    }
    let mut acc: u128 = 0;
    let mut i: usize = 0;
    while i < n
        invariant
            0 <= i <= n,
            n == s@.len(),
            s.is_ascii(),
            bytes@ == s.spec_bytes(),
            bytes@.len() == n,
            forall|k: int| 0 <= k < n ==> #[trigger] bytes@[k] == s@[k] as u8,
            forall|k: int| 0 <= k < i ==> is_digit_char(#[trigger] s@[k]),
            acc == dec_val(s@.subrange(0, i as int)),
            acc <= max,
            max >= 9,
        decreases n - i,
    {
        let b = bytes[i];
        proof {
            // the character is ASCII, so the byte is its code point
            assert('\0' <= s@[i as int] <= '\u{7f}');
            assert(s@[i as int] as u8 == b);
            assert(0 <= s@[i as int] as int <= 127);
        }
        if b < 48 || b > 57 {
            assert(!is_digit_char(s@[i as int]));
            return Err(CoreError::InvalidEncoding);
        }
        let d = (b - 48) as u128;
        proof {
            assert(s@.subrange(0, i + 1).drop_last() =~= s@.subrange(0, i as int));
            assert(s@.subrange(0, i + 1).last() == s@[i as int]);
            assert(digit_val(s@[i as int]) == d);
            assert(dec_val(s@.subrange(0, i + 1)) == acc * 10 + d);
        }
        if acc > max / 10 || 10 * acc > max - d {
            // every longer prefix, and so the whole string, denotes too much
            proof {
                assert(10 * (max / 10) + max % 10 == max);
                assert(acc * 10 + d > max);
                if is_dec_seq(s@) {
                    lemma_dec_val_monotone(s@, i + 1, n as int);
                    assert(s@.subrange(0, n as int) =~= s@);
                    assert(dec_val(s@) >= dec_val(s@.subrange(0, i + 1)));
                }
            }
            return Err(CoreError::ArithmeticError);
        }
        acc = 10 * acc + d;
        i = i + 1;
    }
    proof {
        assert(s@.subrange(0, n as int) =~= s@);
    }
    Ok(acc)
}

/// An amount of currency: an unsigned 64-bit number whose arithmetic
/// fails on overflow or underflow rather than wrapping.
#[derive(Clone, Copy, Debug, PartialEq, Eq, Structural)]
pub struct Value {
    pub amount: u64,
}

/// What `checked_add` returns, as a mathematical function.
pub open spec fn spec_checked_add(a: u64, b: u64) -> Option<u64> {
    if a + b <= u64::MAX {
        Some((a + b) as u64)
    } else {
        None
    }
}

/// What `checked_sub` returns, as a mathematical function.
pub open spec fn spec_checked_sub(a: u64, b: u64) -> Option<u64> {
    if a >= b {
        Some((a - b) as u64)
    } else {
        None
    }
}

impl Value {
    /// The amount `amount`.
    pub fn new(amount: u64) -> (r: Value)
        ensures
            r.amount == amount,
    {
        Value { amount }
    }

    /// The wrapped number.
    pub fn as_u64(&self) -> (r: u64)
        ensures
            r == self.amount,
    {
        self.amount
    }

    /// Parse a canonical decimal string into an amount.
    pub fn from_str(s: &str) -> (r: Result<Value, CoreError>)
        ensures
            match r {
                Ok(v) => is_dec_seq(s@) && dec_val(s@) == v.amount,
                Err(e) => {
                    &&& !(is_dec_seq(s@) && dec_val(s@) <= u64::MAX)
                    &&& (e == CoreError::InvalidEncoding || e == CoreError::ArithmeticError)
                },
            },
    {
        match parse_dec(s, u64::MAX as u128) {
            Ok(v) => Ok(Value { amount: v as u64 }),
            Err(e) => Err(e),
        }
    }

    /// The canonical decimal rendering of the amount.
    pub fn to_str(&self) -> (r: String)
        ensures
            r@ =~= dec_digits_of(self.amount as nat),
    {
        let mut s = String::new();
        push_dec_u64(&mut s, self.amount);
        s
    }

    /// The sum of the two amounts, or `ArithmeticError` on overflow.
    pub fn checked_add(&self, other: &Value) -> (r: Result<Value, CoreError>)
        ensures
            match r {
                Ok(v) => spec_checked_add(self.amount, other.amount) == Some(v.amount),
                Err(e) => spec_checked_add(self.amount, other.amount) is None && e
                    == CoreError::ArithmeticError,
            },
    {
        if self.amount <= u64::MAX - other.amount {
            Ok(Value { amount: self.amount + other.amount })
        } else {
            Err(CoreError::ArithmeticError)
        }
    }

    /// The difference of the two amounts, or `ArithmeticError` on underflow.
    pub fn checked_sub(&self, other: &Value) -> (r: Result<Value, CoreError>)
        ensures
            match r {
                Ok(v) => spec_checked_sub(self.amount, other.amount) == Some(v.amount),
                Err(e) => spec_checked_sub(self.amount, other.amount) is None && e
                    == CoreError::ArithmeticError,
            },
    {
        if self.amount >= other.amount {
            Ok(Value { amount: self.amount - other.amount })
        } else {
            Err(CoreError::ArithmeticError)
        }
    }
}

/// Adding and then subtracting the same amount is the identity, whenever
/// the addition does not overflow.
pub proof fn lemma_value_add_sub(a: u64, b: u64)
    requires
        spec_checked_add(a, b) is Some,
    ensures
        spec_checked_sub(spec_checked_add(a, b).unwrap(), b) == Some(a),
{
}

/// Addition out of the top of the range fails, subtraction below zero fails.
pub proof fn lemma_value_bounds()
    ensures
        spec_checked_add(u64::MAX, 1) is None,
        spec_checked_sub(0, 1) is None,
{
}

/// A 128-bit unsigned number, carried as a pool serial and moved across
/// the boundary of the library as a decimal string or 16 bytes.
#[derive(Clone, Copy, Debug, PartialEq, Eq, Structural)]
pub struct U128 {
    pub number: u128,
}

impl U128 {
    /// The number `number`.
    pub fn new(number: u128) -> (r: U128)
        ensures
            r.number == number,
    {
        U128 { number }
    }

    /// Read a number from its 16 big-endian bytes.
    pub fn from_be_bytes(bytes: &[u8]) -> (r: Result<U128, CoreError>)
        ensures
            match r {
                Ok(v) => bytes@.len() == 16 && v.number == be_val(bytes@),
                Err(e) => bytes@.len() != 16 && e == CoreError::MalformedInput,
            },
    {
        if bytes.len() != 16 {
            return Err(CoreError::MalformedInput);
        }
        let acc = crate::bytes::read_be(bytes, 0, 16);
        proof {
            assert(bytes@.subrange(0, 16) =~= bytes@);
        }
        Ok(U128 { number: acc })
    }

    /// Read a number from its 16 little-endian bytes.
    pub fn from_le_bytes(bytes: &[u8]) -> (r: Result<U128, CoreError>)
        ensures
            match r {
                Ok(v) => bytes@.len() == 16 && v.number == be_val(bytes@.reverse()),
                Err(e) => bytes@.len() != 16 && e == CoreError::MalformedInput,
            },
    {
        if bytes.len() != 16 {
            return Err(CoreError::MalformedInput);
        }
        let mut rev: Vec<u8> = Vec::new();
        let mut i: usize = 0;
        while i < 16
            invariant
                0 <= i <= 16,
                bytes@.len() == 16,
                rev@.len() == i,
                forall|k: int| 0 <= k < i ==> rev@[k] == bytes@[15 - k],
            decreases 16 - i,
        {
            rev.push(bytes[16 - 1 - i]);
            i = i + 1;
        }
        proof {
            assert(rev@ =~= bytes@.reverse());
        }
        U128::from_be_bytes(rev.as_slice())
    }

    /// Parse a canonical decimal string into a number.
    pub fn from_str(s: &str) -> (r: Result<U128, CoreError>)
        ensures
            match r {
                Ok(v) => is_dec_seq(s@) && dec_val(s@) == v.number,
                Err(e) => {
                    &&& !(is_dec_seq(s@) && dec_val(s@) <= u128::MAX)
                    &&& (e == CoreError::InvalidEncoding || e == CoreError::ArithmeticError)
                },
            },
    {
        match parse_dec(s, u128::MAX) {
            Ok(v) => Ok(U128 { number: v }),
            Err(e) => Err(e),
        }
    }

    /// The canonical decimal rendering of the number.
    pub fn to_str(&self) -> (r: String)
        ensures
            r@ =~= dec_digits_of(self.number as nat),
    {
        let mut s = String::new();
        push_dec_u128(&mut s, self.number);
        s
    }
}

} // verus!

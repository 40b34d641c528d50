//! Big-endian byte codecs shared by every canonical encoding.
//!
//! A number is laid out as a fixed count of base-256 digits, most
//! significant first.  `be_bytes` and `be_val` are the mathematical
//! encoder and decoder; the executable functions below are proved
//! against them.

use vstd::prelude::*;

verus! {

/// The `n`-byte big-endian encoding of `x` (high bits beyond `n` bytes drop).
pub open spec fn be_bytes(x: int, n: nat) -> Seq<u8>
    decreases n,
{
    if n == 0 {
        Seq::empty()
    } else {
        be_bytes(x / 256, (n - 1) as nat) + seq![(x % 256) as u8]
    }
}

/// The number denoted by `s` read as big-endian base-256 digits.
pub open spec fn be_val(s: Seq<u8>) -> int
    decreases s.len(),
{
    if s.len() == 0 {
        0
    } else {
        be_val(s.drop_last()) * 256 + s.last()
    }
}

/// 256 to the `n`th power.
pub open spec fn pow256(n: nat) -> int
    decreases n,
{
    if n == 0 {
        1
    } else {
        256 * pow256((n - 1) as nat)
    }
}

pub proof fn lemma_pow256_pos(n: nat)
    ensures
        pow256(n) >= 1,
    decreases n,
{
    if n > 0 {
        lemma_pow256_pos((n - 1) as nat);
    }
}

pub proof fn lemma_pow256_mono(i: nat, j: nat)
    requires
        i <= j,
    ensures
        pow256(i) <= pow256(j),
    decreases j,
{
    if i < j {
        lemma_pow256_mono(i, (j - 1) as nat);
        lemma_pow256_pos((j - 1) as nat);
    }
}

/// Eight bytes hold exactly the 64-bit range.
pub proof fn lemma_pow256_8()
    ensures
        pow256(8) == 0x1_0000_0000_0000_0000,
{
    reveal_with_fuel(pow256, 9);
}

/// Sixteen bytes hold exactly the 128-bit range.
pub proof fn lemma_pow256_16()
    ensures
        pow256(16) == 0x1_0000_0000_0000_0000_0000_0000_0000_0000,
{
    reveal_with_fuel(pow256, 17);
}

/// An encoding has exactly the requested length.
pub proof fn lemma_be_bytes_len(x: int, n: nat)
    ensures
        be_bytes(x, n).len() == n,
    decreases n,
{
    if n > 0 {
        lemma_be_bytes_len(x / 256, (n - 1) as nat);
    }
}

/// A byte string denotes a number within the range of its length.
pub proof fn lemma_be_val_bounds(s: Seq<u8>)
    ensures
        0 <= be_val(s) < pow256(s.len()),
    decreases s.len(),
{
    if s.len() == 0 {
    } else {
        lemma_be_val_bounds(s.drop_last());
    }
}

/// Decoding inverts encoding for every number that fits in `n` bytes.
pub proof fn lemma_be_round_trip(x: int, n: nat)
    requires
        0 <= x < pow256(n),
    ensures
        be_val(be_bytes(x, n)) == x,
    decreases n,
{
    if n > 0 {
        lemma_be_bytes_len(x / 256, (n - 1) as nat);
        lemma_pow256_pos((n - 1) as nat);
        lemma_be_round_trip(x / 256, (n - 1) as nat);
        let s = be_bytes(x, n);
        assert(s.drop_last() =~= be_bytes(x / 256, (n - 1) as nat));
        assert(s.last() == (x % 256) as u8);
    }
}

/// Encoding inverts decoding: every byte string is the encoding of the
/// number it denotes.  With the round trip above, `n`-byte strings and
/// numbers below `pow256(n)` are in one-to-one correspondence.
pub proof fn lemma_be_bytes_of_val(s: Seq<u8>)
    ensures
        be_bytes(be_val(s), s.len()) == s,
    decreases s.len(),
{
    if s.len() > 0 {
        lemma_be_val_bounds(s.drop_last());
        let v = be_val(s);
        assert(v % 256 == s.last());
        assert(v / 256 == be_val(s.drop_last()));
        lemma_be_bytes_of_val(s.drop_last());
        assert(be_bytes(v, s.len()) =~= s);
    } else {
        assert(be_bytes(be_val(s), 0) =~= s);
    }
}

/// Encoding is one-to-one on numbers that fit in `n` bytes.
pub proof fn lemma_be_bytes_injective(x: int, y: int, n: nat)
    requires
        0 <= x < pow256(n),
        0 <= y < pow256(n),
        be_bytes(x, n) == be_bytes(y, n),
    ensures
        x == y,
{
    lemma_be_round_trip(x, n);
    lemma_be_round_trip(y, n);
}

/// Append the `n`-byte big-endian encoding of `x` to `v`.
pub fn push_be(v: &mut Vec<u8>, x: u128, n: usize)
    ensures
        final(v)@ =~= old(v)@ + be_bytes(x as int, n as nat),
    decreases n,
{
    if n > 0 {
        push_be(v, x / 256, n - 1);
        v.push((x % 256) as u8);
    }
}

/// Read the number held by the `n` bytes of `b` starting at `off`.
pub fn read_be(b: &[u8], off: usize, n: usize) -> (r: u128)
    requires
        n <= 16,
        off + n <= b@.len(),
    ensures
        r == be_val(b@.subrange(off as int, off + n)),
{
    let bl = b.len();
    let mut acc: u128 = 0;
    let mut i: usize = 0;
    while i < n
        invariant
            0 <= i <= n,
            n <= 16,
            bl == b@.len(),
            off + n <= b@.len(),
            acc == be_val(b@.subrange(off as int, off + i)),
            acc < pow256(i as nat),
        decreases n - i,
    {
        proof {
            lemma_pow256_mono((i + 1) as nat, 16);
            lemma_pow256_16();
            assert(b@.subrange(off as int, off + i + 1).drop_last() =~= b@.subrange(
                off as int,
                off + i,
            ));
            assert(b@.subrange(off as int, off + i + 1).last() == b@[off + i]);
        }
        acc = acc * 256 + b[off + i] as u128;
        i = i + 1;
    }
    acc
}

/// Read the 64-bit number held by the 8 bytes of `b` starting at `off`.
pub fn read_u64_be(b: &[u8], off: usize) -> (r: u64)
    requires
        off + 8 <= b@.len(),
    ensures
        r == be_val(b@.subrange(off as int, off + 8)),
{
    let wide = read_be(b, off, 8);
    proof {
        lemma_be_val_bounds(b@.subrange(off as int, off + 8));
        lemma_pow256_8();
    }
    wide as u64
}

/// Append a copy of `s` to `v`.
pub fn push_bytes(v: &mut Vec<u8>, s: &[u8])
    ensures
        final(v)@ =~= old(v)@ + s@,
{
    let n = s.len();
    let mut i: usize = 0;
    while i < n
        invariant
            0 <= i <= n,
            n == s@.len(),
            v@ =~= old(v)@ + s@.subrange(0, i as int),
        decreases n - i,
    {
        v.push(s[i]);
        proof {
            assert(old(v)@ + s@.subrange(0, i + 1) =~= (old(v)@ + s@.subrange(0, i as int)).push(
                s@[i as int],
            ));
        }
        i = i + 1;
    }
    proof {
        assert(s@.subrange(0, n as int) =~= s@);
    }
}

/// The `n` bytes of `b` starting at `off`, as a fresh vector.
pub fn copy_range(b: &[u8], off: usize, n: usize) -> (r: Vec<u8>)
    requires
        off + n <= b@.len(),
    ensures
        r@ =~= b@.subrange(off as int, off + n),
{
    let bl = b.len();
    let mut v: Vec<u8> = Vec::new();
    let mut i: usize = 0;
    while i < n
        invariant
            0 <= i <= n,
            bl == b@.len(),
            off + n <= b@.len(),
            v@ =~= b@.subrange(off as int, off + i),
        decreases n - i,
    {
        v.push(b[off + i]);
        proof {
            assert(b@.subrange(off as int, off + i + 1) =~= b@.subrange(off as int, off
                + i).push(b@[off + i]));
        }
        i = i + 1;
    }
    v
}

} // verus!

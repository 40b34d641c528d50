//! Human-readable codecs: lowercase hexadecimal and bech32.
//!
//! Both codecs are outside collaborators.  Each call goes through a
//! trusted wrapper; the bech32 string itself is only named, while the
//! hexadecimal form is pinned down character by character.

use vstd::prelude::*;

use crate::error::CoreError;

verus! {

/// The lowercase hexadecimal digit for `d`.
pub open spec fn hex_digit_char(d: int) -> char {
    if d == 0 { '0' }
    else if d == 1 { '1' }
    else if d == 2 { '2' }
    else if d == 3 { '3' }
    else if d == 4 { '4' }
    else if d == 5 { '5' }
    else if d == 6 { '6' }
    else if d == 7 { '7' }
    else if d == 8 { '8' }
    else if d == 9 { '9' }
    else if d == 10 { 'a' }
    else if d == 11 { 'b' }
    else if d == 12 { 'c' }
    else if d == 13 { 'd' }
    else if d == 14 { 'e' }
    else { 'f' }
}

/// The lowercase hexadecimal rendering of `s`: two digits per byte.
pub open spec fn hex_of(s: Seq<u8>) -> Seq<char>
    decreases s.len(),
{
    if s.len() == 0 {
        Seq::empty()
    } else {
        hex_of(s.drop_last()) + seq![
            hex_digit_char(s.last() as int / 16),
            hex_digit_char(s.last() as int % 16),
        ]
    }
}

/// Relies on `hex::encode`: the lowercase hexadecimal string of the
/// bytes, two digits per byte, most significant digit first.
#[verifier::external_body]
pub(crate) fn hex_encode(b: &[u8]) -> (r: String)
    ensures
        r@ == hex_of(b@),
{
    hex::encode(b)
}

/// Relies on `hex::decode`: decoding recovers exactly the bytes whose
/// canonical lowercase rendering the input is, and yields half as many
/// bytes as input characters otherwise.
#[verifier::external_body]
pub(crate) fn hex_decode(s: &str) -> (r: Result<Vec<u8>, CoreError>)
    ensures
        match r {
            Ok(v) => s@.len() == 2 * v@.len() && forall|bs: Seq<u8>|
                s@ == hex_of(bs) ==> v@ == bs,
            Err(_) => forall|bs: Seq<u8>| s@ != hex_of(bs),
        },
    {
    match hex::decode(s) {
        Ok(v) => Ok(v),
        Err(_) => Err(CoreError::InvalidEncoding),
    }
}

/// A usable bech32 human-readable prefix: one to 83 characters, all
/// printable lowercase ASCII.
pub open spec fn valid_prefix(s: Seq<char>) -> bool {
    &&& 1 <= s.len() <= 83
    &&& forall|i: int|
        0 <= i < s.len() ==> 33 <= (#[trigger] s[i]) as int <= 126 && !(65 <= s[i] as int <= 90)
}

/// What `bech32::encode` returns for a prefix and a byte payload.
pub uninterp spec fn bech32_str_of(hrp: Seq<char>, data: Seq<u8>) -> Seq<char>;

/// What `bech32::decode` returns for a string: the prefix (in its
/// lowercase form) and the payload where the string carries a valid
/// checksum, nothing otherwise.  A function of the string alone.
pub uninterp spec fn bech32_decode_of(s: Seq<char>) -> Option<(Seq<char>, Seq<u8>)>;

/// Relies on `bech32::encode` with the bech32 checksum: the encoding of
/// the payload under the given prefix.  The length cap keeps the string
/// under the code-length limit, so the call cannot fail.
#[verifier::external_body]
pub(crate) fn bech32_encode(hrp: &str, data: &[u8]) -> (r: String)
    requires
        valid_prefix(hrp@),
        data@.len() <= 512,
    ensures
        r@ == bech32_str_of(hrp@, data@),
{
    let h = bech32::Hrp::parse(hrp).unwrap();
    bech32::encode::<bech32::Bech32>(h, data).unwrap()
}

/// Relies on `bech32::decode`: it succeeds exactly on strings with a
/// valid checksum, a condition of the string alone, and a checksummed
/// string produced by `bech32::encode` decodes back to exactly its
/// prefix and payload.
#[verifier::external_body]
pub(crate) fn bech32_decode(s: &str) -> (r: Result<(String, Vec<u8>), CoreError>)
    ensures
        match r {
            Ok(p) => {
                &&& bech32_decode_of(s@) == Some((p.0@, p.1@))
                &&& forall|h: Seq<char>, d: Seq<u8>|
                    valid_prefix(h) && d.len() <= 512 && s@ == #[trigger] bech32_str_of(h, d)
                        ==> p.0@ == h && p.1@ == d
            },
            Err(_) => {
                &&& bech32_decode_of(s@) is None
                &&& forall|h: Seq<char>, d: Seq<u8>|
                    valid_prefix(h) && d.len() <= 512 ==> s@ != #[trigger] bech32_str_of(
                        h,
                        d,
                    )
            },
        },
    {
    match bech32::decode(s) {
        Ok((hrp, data)) => Ok((hrp.to_lowercase(), data)),
        Err(_) => Err(CoreError::InvalidChecksum),
    }
}

/// Is `s` usable as a bech32 prefix?  Decides [`valid_prefix`].
pub fn is_valid_prefix(s: &str) -> (r: bool)
    ensures
        r == valid_prefix(s@),
{
    if !s.is_ascii() {
        assert(!valid_prefix(s@)) by {
            if valid_prefix(s@) {
                assert forall|i: int| 0 <= i < s@.len() implies '\0' <= #[trigger] s@[i]
                    <= '\u{7f}' by {
                    assert(33 <= s@[i] as int <= 126);
                }
                assert(vstd::string::is_ascii(s));
            }
        }
        return false;
    }
    let bytes = s.as_bytes();
    let n = bytes.len();
    proof {
        vstd::string::is_ascii_spec_bytes(s);
        assert(n == s@.len());
    }
    if n < 1 || n > 83 {
        return false;
    }
    let mut i: usize = 0;
    while i < n
        invariant
            0 <= i <= n,
            1 <= n <= 83,
            n == s@.len(),
            s.is_ascii(),
            bytes@.len() == n,
            forall|k: int| 0 <= k < n ==> #[trigger] bytes@[k] == s@[k] as u8,
            forall|k: int|
                0 <= k < i ==> 33 <= (#[trigger] s@[k]) as int <= 126 && !(65 <= s@[k] as int
                    <= 90),
        decreases n - i,
    {
        let b = bytes[i];
        proof {
            assert('\0' <= s@[i as int] <= '\u{7f}');
            assert(s@[i as int] as u8 == b);
        }
        if b < 33 || b > 126 || (b >= 65 && b <= 90) {
            return false;
        }
        i = i + 1;
    }
    true
}

} // verus!

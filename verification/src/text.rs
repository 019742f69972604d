//! Byte-level text helpers: ASCII literals, UTF-8 conversion and canonical decimal numbers.

use vstd::prelude::*;
use vstd::string::*;
use vstd::utf8::*;

verus! {

/// Every byte is 7-bit ASCII.
pub open spec fn is_ascii_bytes(b: Seq<u8>) -> bool {
    forall|i: int| 0 <= i < b.len() ==> #[trigger] b[i] < 128
}

/// ASCII bytes are valid UTF-8.
pub proof fn lemma_ascii_valid_utf8(b: Seq<u8>)
    requires
        is_ascii_bytes(b),
    ensures
        valid_utf8(b),
{
    assert(b.subrange(0, 0) =~= Seq::<u8>::empty());
    assert(partial_valid_utf8(b, 0));
    partial_valid_utf8_extend_ascii_block(b, 0, b.len() as int);
    assert(b.subrange(0, b.len() as int) =~= b);
}

/// The bytes of an ASCII string are its characters, one byte each.
pub proof fn lemma_ascii_str_bytes(s: &str)
    requires
        is_ascii_chars(s@),
    ensures
        s.spec_bytes() == Seq::new(s@.len(), |i: int| s@[i] as u8),
{
    is_ascii_chars_encode_utf8(s@);
    assert(s.spec_bytes() =~= Seq::new(s@.len(), |i: int| s@[i] as u8));
}

/// Interpret bytes as UTF-8 text (`std::str::from_utf8`).
///
/// Trusted: `from_utf8` succeeds exactly on valid UTF-8 input and the returned `str` consists of
/// the same bytes.
#[verifier::external_body]
pub(crate) fn str_from_utf8(bytes: &[u8]) -> (r: Option<&str>)
    ensures
        r is Some <==> valid_utf8(bytes@),
        r matches Some(s) ==> s.spec_bytes() == bytes@,
{
    std::str::from_utf8(bytes).ok()
}

/// Build an owned string from bytes (`String::from_utf8_lossy`).
///
/// Trusted: on valid UTF-8 input the string holds exactly these bytes. Nothing is stated about
/// the replacement characters produced for invalid input.
#[verifier::external_body]
pub(crate) fn string_from_utf8_lossy(bytes: &[u8]) -> (r: String)
    ensures
        valid_utf8(bytes@) ==> encode_utf8(r@) == bytes@,
{
    String::from_utf8_lossy(bytes).into_owned()
}

/// Owned string from ASCII bytes.
pub fn ascii_string(bytes: &Vec<u8>) -> (r: String)
    requires
        is_ascii_bytes(bytes@),
    ensures
        encode_utf8(r@) == bytes@,
{
    proof {
        lemma_ascii_valid_utf8(bytes@);
    }
    string_from_utf8_lossy(bytes.as_slice())
}

/// Append the bytes of a string slice.
pub fn push_str_bytes(v: &mut Vec<u8>, s: &str)
    ensures
        final(v)@ == old(v)@ + s.spec_bytes(),
{
    let b = s.as_bytes();
    let mut i: usize = 0;
    while i < b.len()
        invariant
            0 <= i <= b@.len(),
            b@ == s.spec_bytes(),
            v@ == old(v)@ + b@.subrange(0, i as int),
        decreases b@.len() - i,
    {
        v.push(b[i]);
        proof {
            assert(b@.subrange(0, i + 1) =~= b@.subrange(0, i as int).push(b@[i as int]));
        }
        i += 1;
    }
    proof {
        assert(b@.subrange(0, b@.len() as int) =~= b@);
    }
}

/// ASCII code of a decimal digit.
pub open spec fn digit_byte(d: int) -> u8 {
    (48 + d) as u8
}

/// Canonical decimal representation (no sign, no leading zeros).
pub open spec fn decimal_digits(n: nat) -> Seq<u8>
    decreases n,
{
    if n < 10 {
        seq![digit_byte(n as int)]
    } else {
        decimal_digits(n / 10).push(digit_byte((n % 10) as int))
    }
}

/// Whether a byte is an ASCII decimal digit.
pub open spec fn is_digit(b: u8) -> bool {
    48 <= b <= 57
}

/// Numeric value of a digit string.
pub open spec fn digits_value(s: Seq<u8>) -> nat
    decreases s.len(),
{
    if s.len() == 0 {
        0
    } else {
        digits_value(s.drop_last()) * 10 + (s.last() - 48) as nat
    }
}

/// Decimal digit strings are non-empty ASCII digits whose value is the number.
pub proof fn lemma_decimal_digits(n: nat)
    ensures
        decimal_digits(n).len() >= 1,
        forall|i: int| 0 <= i < decimal_digits(n).len() ==> is_digit(#[trigger] decimal_digits(n)[i]),
        digits_value(decimal_digits(n)) == n,
        n < 10 <==> decimal_digits(n).len() == 1,
        decimal_digits(n).len() > 1 ==> decimal_digits(n)[0] != 48,
    decreases n,
{
    let d = decimal_digits(n);
    if n >= 10 {
        lemma_decimal_digits(n / 10);
        assert(d.drop_last() =~= decimal_digits(n / 10));
        assert((n / 10) * 10 + n % 10 == n) by (nonlinear_arith);
        assert(digits_value(d) == digits_value(decimal_digits(n / 10)) * 10 + (n % 10));
    } else {
        assert(d.drop_last() =~= Seq::<u8>::empty());
        assert(digits_value(d) == digits_value(d.drop_last()) * 10 + (d.last() - 48) as nat);
    }
}

/// The value of a prefix of a digit string never exceeds the value of the whole string.
pub proof fn lemma_prefix_value_le(s: Seq<u8>, k: int)
    requires
        0 <= k <= s.len(),
        forall|i: int| 0 <= i < s.len() ==> is_digit(#[trigger] s[i]),
    ensures
        digits_value(s.subrange(0, k)) <= digits_value(s),
    decreases s.len() - k,
{
    if k < s.len() {
        lemma_prefix_value_le(s, k + 1);
        let t = s.subrange(0, k + 1);
        assert(t.drop_last() =~= s.subrange(0, k));
        assert(digits_value(t) == digits_value(s.subrange(0, k)) * 10 + (t.last() - 48) as nat);
    } else {
        assert(s.subrange(0, k) =~= s);
    }
}

/// Append the canonical decimal representation of `n`.
pub fn push_decimal(v: &mut Vec<u8>, n: u64)
    ensures
        final(v)@ == old(v)@ + decimal_digits(n as nat),
    decreases n,
{
    if n >= 10 {
        push_decimal(v, n / 10);
    }
    v.push((48 + n % 10) as u8);
    proof {
        if n >= 10 {
            assert(final(v)@ =~= old(v)@ + decimal_digits(n as nat));
        } else {
            assert(final(v)@ =~= old(v)@ + decimal_digits(n as nat));
        }
    }
}

/// The canonical decimal form of `n` as text.
pub open spec fn decimal_text(n: nat) -> Seq<char> {
    decode_utf8(decimal_digits(n))
}

/// The canonical decimal form of `n` as an owned string.
pub fn decimal_string(n: u64) -> (r: String)
    ensures
        r@ == decimal_text(n as nat),
{
    let b = decimal_bytes(n);
    proof {
        lemma_decimal_digits(n as nat);
        assert forall|i: int| 0 <= i < b@.len() implies #[trigger] b@[i] < 128 by {
            assert(is_digit(decimal_digits(n as nat)[i]));
        }
    }
    let s = ascii_string(&b);
    proof {
        broadcast use encode_utf8_decode_utf8;

        assert(decode_utf8(encode_utf8(s@)) == s@);
    }
    s
}

/// Canonical decimal bytes of `n` as a fresh vector.
pub fn decimal_bytes(n: u64) -> (r: Vec<u8>)
    ensures
        r@ == decimal_digits(n as nat),
{
    let mut v: Vec<u8> = Vec::new();
    push_decimal(&mut v, n);
    proof {
        assert(v@ =~= decimal_digits(n as nat));
    }
    v
}

/// Whether two byte sequences are equal (exec).
pub fn bytes_equal(a: &[u8], b: &[u8]) -> (r: bool)
    ensures
        r == (a@ == b@),
{
    if a.len() != b.len() {
        return false;
    }
    let mut i: usize = 0;
    while i < a.len()
        invariant
            0 <= i <= a@.len(),
            a@.len() == b@.len(),
            forall|j: int| 0 <= j < i ==> a@[j] == b@[j],
        decreases a@.len() - i,
    {
        if a[i] != b[i] {
            return false;
        }
        i += 1;
    }
    proof {
        assert(a@ =~= b@);
    }
    true
}

/// Decode exactly the canonical decimal representation of a `u64`; anything else is `None`.
pub fn decode_decimal_u64(value: &[u8]) -> (r: Option<u64>)
    ensures
        match r {
            Some(n) => value@ == decimal_digits(n as nat),
            None => forall|n: u64| value@ != decimal_digits(n as nat),
        },
{
    let len = value.len();
    if len == 0 {
        proof {
            assert forall|n: u64| value@ != decimal_digits(n as nat) by {
                lemma_decimal_digits(n as nat);
            }
        }
        return None;
    }
    let mut acc: u64 = 0;
    let mut i: usize = 0;
    while i < len
        invariant
            0 <= i <= len,
            len == value@.len(),
            forall|j: int| 0 <= j < i ==> is_digit(#[trigger] value@[j]),
            acc as nat == digits_value(value@.subrange(0, i as int)),
        decreases len - i,
    {
        let b = value[i];
        if b < 48 || b > 57 {
            proof {
                assert forall|n: u64| value@ != decimal_digits(n as nat) by {
                    lemma_decimal_digits(n as nat);
                    if value@ == decimal_digits(n as nat) {
                        assert(is_digit(decimal_digits(n as nat)[i as int]));
                    }
                }
            }
            return None;
        }
        let ghost prefix = value@.subrange(0, i + 1);
        proof {
            assert(prefix.drop_last() =~= value@.subrange(0, i as int));
        }
        let next = match acc.checked_mul(10) {
            Some(m) => m.checked_add((b - 48) as u64),
            None => None,
        };
        match next {
            Some(x) => {
                acc = x;
            },
            None => {
                proof {
                    assert forall|n: u64| value@ != decimal_digits(n as nat) by {
                        lemma_decimal_digits(n as nat);
                        if value@ == decimal_digits(n as nat) {
                            lemma_prefix_value_le(value@, i + 1);
                        }
                    }
                }
                return None;
            },
        }
        i += 1;
    }
    let canonical = decimal_bytes(acc);
    if bytes_equal(canonical.as_slice(), value) {
        Some(acc)
    } else {
        proof {
            assert(value@.subrange(0, len as int) =~= value@);
            assert forall|n: u64| value@ != decimal_digits(n as nat) by {
                lemma_decimal_digits(n as nat);
            }
        }
        None
    }
}

} // verus!

//! Decimal writing and reading of unsigned integers, as `to_string` and
//! `str::parse` do them.
use vstd::prelude::*;
use vstd::string::StringSliceAdditionalSpecFns;

use crate::text::{all_ascii, ascii_chars, ascii_string};

verus! {

/// An ASCII decimal digit, `'0'` (48) to `'9'` (57).
pub open spec fn is_digit(b: u8) -> bool {
    48 <= b <= 57
}

/// Every byte is a decimal digit.
pub open spec fn all_digits(s: Seq<u8>) -> bool {
    forall|i: int| 0 <= i < s.len() ==> #[trigger] is_digit(s[i])
}

/// The number that a string of ASCII digits writes in base ten.
pub open spec fn digits_value(s: Seq<u8>) -> nat
    decreases s.len(),
{
    if s.len() == 0 {
        0
    } else {
        digits_value(s.drop_last()) * 10 + (s.last() - 48) as nat
    }
}

/// The shortest decimal writing of `n`, as ASCII bytes (what `to_string`
/// gives for an unsigned integer).
pub open spec fn decimal_digits(n: nat) -> Seq<u8>
    decreases n,
{
    if n < 10 {
        seq![(48 + n) as u8]
    } else {
        decimal_digits(n / 10) + seq![(48 + n % 10) as u8]
    }
}

/// The digits that `str::parse::<u32>` reads: one leading `+` (43) is
/// dropped when something follows it.
pub open spec fn unsigned_digits(s: Seq<u8>) -> Seq<u8> {
    if s.len() > 1 && s[0] == 43 {
        s.drop_first()
    } else {
        s
    }
}

/// What `str::parse::<u32>` gives for the bytes of a string: the value of a
/// non-empty run of decimal digits after an optional `+`, when it fits in a
/// `u32`, and nothing otherwise.
pub open spec fn parsed_u32(s: Seq<u8>) -> Option<u32> {
    let d = unsigned_digits(s);
    if d.len() > 0 && all_digits(d) && digits_value(d) <= u32::MAX {
        Some(digits_value(d) as u32)
    } else {
        None
    }
}

proof fn lemma_digits_value_prefix(s: Seq<u8>, i: int)
    requires
        0 <= i <= s.len(),
        all_digits(s),
    ensures
        digits_value(s.subrange(0, i)) <= digits_value(s),
    decreases s.len() - i,
{
    if i < s.len() {
        lemma_digits_value_prefix(s, i + 1);
        let p = s.subrange(0, i + 1);
        assert(p.drop_last() =~= s.subrange(0, i));
        assert(is_digit(s[i]));
    } else {
        assert(s.subrange(0, i) =~= s);
    }
}

pub proof fn lemma_decimal_digits_shape(n: nat)
    ensures
        decimal_digits(n).len() > 0,
        all_digits(decimal_digits(n)),
        digits_value(decimal_digits(n)) == n,
        n > 0 ==> decimal_digits(n)[0] != 48,
        n < 10 ==> decimal_digits(n).len() == 1,
        n < 100 ==> decimal_digits(n).len() <= 2,
        n < 1000 ==> decimal_digits(n).len() <= 3,
    decreases n,
{
    let d = decimal_digits(n);
    if n < 10 {
        assert(d.drop_last() =~= Seq::<u8>::empty());
        assert(digits_value(d) == digits_value(d.drop_last()) * 10 + (d.last() - 48) as nat);
    } else {
        lemma_decimal_digits_shape(n / 10);
        assert(d.drop_last() =~= decimal_digits(n / 10));
        assert((n / 10) * 10 + n % 10 == n) by (nonlinear_arith);
        assert(d.last() == (48 + n % 10) as u8);
        assert(digits_value(d) == digits_value(d.drop_last()) * 10 + (d.last() - 48) as nat);
        assert(digits_value(d.drop_last()) == n / 10);
        assert forall|i: int| 0 <= i < d.len() implies #[trigger] is_digit(d[i]) by {
            if i < d.len() - 1 {
                assert(d[i] == decimal_digits(n / 10)[i]);
            }
        }
    }
}

/// Parsing the decimal writing of a `u32` gives the number back.
pub proof fn lemma_parse_decimal_roundtrip(n: u32)
    ensures
        parsed_u32(decimal_digits(n as nat)) == Some(n),
{
    lemma_decimal_digits_shape(n as nat);
    let d = decimal_digits(n as nat);
    assert(is_digit(d[0]));
    assert(unsigned_digits(d) == d);
}

/// Appends the decimal digits of `n` to `out`.
pub fn push_decimal(n: u64, out: &mut Vec<u8>)
    ensures
        final(out)@ == old(out)@ + decimal_digits(n as nat),
    decreases n,
{
    if n < 10 {
        out.push(48 + n as u8);
        proof {
            assert(decimal_digits(n as nat) == seq![(48 + n) as u8]);
        }
    } else {
        push_decimal(n / 10, out);
        out.push(48 + (n % 10) as u8);
        proof {
            assert(decimal_digits(n as nat) =~= decimal_digits((n / 10) as nat) + seq![(48 + n % 10) as u8]);
        }
    }
}

/// `n.to_string()` for a `u32`: its decimal writing.
pub fn u32_to_decimal_string(n: u32) -> (r: String)
    ensures
        r@ == ascii_chars(decimal_digits(n as nat)),
{
    let mut out: Vec<u8> = Vec::new();
    push_decimal(n as u64, &mut out);
    proof {
        lemma_decimal_digits_shape(n as nat);
        assert(out@ =~= decimal_digits(n as nat));
        assert forall|i: int| 0 <= i < out@.len() implies #[trigger] out@[i] < 128 by {
            assert(is_digit(decimal_digits(n as nat)[i]));
        }
    }
    ascii_string(out)
}

/// `str::parse::<u32>`: the decimal value written by `s`, after an optional
/// leading `+`, when it fits in a `u32`.
pub fn parse_u32(s: &str) -> (r: Option<u32>)
    ensures
        r == parsed_u32(s.spec_bytes()),
{
    let bytes = s.as_bytes();
    let n = bytes.len();
    let start: usize = if n > 1 && bytes[0] == 43 { 1 } else { 0 };
    let ghost d = unsigned_digits(bytes@);
    proof {
        if start == 1 {
            assert(d =~= bytes@.subrange(1, n as int));
        } else {
            assert(d =~= bytes@.subrange(0, n as int));
        }
    }
    if start == n {
        return None;
    }
    let mut value: u64 = 0;
    let mut i: usize = start;
    while i < n
        invariant
            bytes@ == s.spec_bytes(),
            n == bytes@.len(),
            start <= i <= n,
            start < n,
            d == bytes@.subrange(start as int, n as int),
            d == unsigned_digits(bytes@),
            all_digits(d.subrange(0, i - start)),
            value == digits_value(d.subrange(0, i - start)),
            value <= u32::MAX,
        decreases n - i,
    {
        let b = bytes[i];
        if b < 48 || b > 57 {
            proof {
                assert(d[i - start] == b);
                assert(!is_digit(d[i - start]));
            }
            return None;
        }
        let ghost k: int = i - start;
        proof {
            let p = d.subrange(0, k + 1);
            assert(p.drop_last() =~= d.subrange(0, k));
            assert(p.last() == b);
            assert forall|j: int| 0 <= j < p.len() implies #[trigger] is_digit(p[j]) by {
                if j < k {
                    assert(p[j] == d.subrange(0, k)[j]);
                }
            }
        }
        value = value * 10 + (b - 48) as u64;
        i = i + 1;
        if value > u32::MAX as u64 {
            proof {
                assert(value == digits_value(d.subrange(0, i - start)));
                if all_digits(d) {
                    lemma_digits_value_prefix(d, i - start);
                }
            }
            return None;
        }
    }
    proof {
        assert(d.subrange(0, n - start) =~= d);
    }
    Some(value as u32)
}

} // verus!

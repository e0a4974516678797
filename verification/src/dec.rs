//! Decimal text: the mathematical form of decimal integers on the wire and
//! verified encoders for them.
//!
//! `dec_nat` and `dec_int` give the canonical decimal text of a number, the
//! form the serializer emits; `dec_val` gives the value of an arbitrary digit
//! string, the form the parser accepts (which also admits leading zeros).

use crate::frame::{all_digits, is_digit_byte, no_crlf};
use vstd::prelude::*;

verus! {

/// The digits of `n` without leading zeros; empty when `n` is zero.
pub open spec fn dec_digits(n: int) -> Seq<u8>
    decreases n,
{
    if n <= 0 {
        Seq::empty()
    } else {
        dec_digits(n / 10).push((48 + n % 10) as u8)
    }
}

/// The canonical decimal text of a non-negative number.
pub open spec fn dec_nat(n: int) -> Seq<u8> {
    if n == 0 {
        seq![48u8]
    } else {
        dec_digits(n)
    }
}

/// The canonical decimal text of a number, with a leading `-` when negative.
pub open spec fn dec_int(n: int) -> Seq<u8> {
    if n < 0 {
        seq![45u8] + dec_nat(-n)
    } else {
        dec_nat(n)
    }
}

/// The value of a digit string (most significant digit first).
pub open spec fn dec_val(s: Seq<u8>) -> int
    decreases s,
{
    if s.len() == 0 {
        0
    } else {
        dec_val(s.drop_last()) * 10 + (s.last() - 48)
    }
}

/// The canonical digits of `n` are digits, carry the value `n`, and are
/// nonempty exactly when `n` is positive.
pub proof fn lemma_dec_digits(n: int)
    requires
        n >= 0,
    ensures
        all_digits(dec_digits(n)),
        dec_val(dec_digits(n)) == n,
        n > 0 ==> dec_digits(n).len() > 0 && dec_digits(n)[0] != 48,
    decreases n,
{
    if n > 0 {
        lemma_dec_digits(n / 10);
        let s = dec_digits(n);
        let p = dec_digits(n / 10);
        assert(s == p.push((48 + n % 10) as u8));
        assert(s.drop_last() =~= p);
        assert(dec_val(s) == dec_val(p) * 10 + (n % 10));
        assert(forall|i: int| 0 <= i < s.len() ==> is_digit_byte(#[trigger] s[i])) by {
            assert(forall|i: int|
                0 <= i < p.len() ==> is_digit_byte(#[trigger] p[i]) && s[i] == p[i]);
            assert(s[s.len() - 1] == (48 + n % 10) as u8);
        }
        if n / 10 > 0 {
            assert(s[0] == p[0]);
        } else {
            assert(n < 10);
            assert(s[0] == (48 + n) as u8);
        }
    }
}

/// The canonical decimal text of a non-negative number: digits with the
/// value `n`, nonempty, free of CR and LF.
pub proof fn lemma_dec_nat(n: int)
    requires
        n >= 0,
    ensures
        all_digits(dec_nat(n)),
        dec_val(dec_nat(n)) == n,
        dec_nat(n).len() > 0,
        no_crlf(dec_nat(n)),
{
    lemma_dec_digits(n);
    if n == 0 {
        assert(dec_val(seq![48u8]) == 0) by {
            assert(seq![48u8].drop_last() =~= Seq::<u8>::empty());
        }
    }
}

/// Digit strings contain no CR or LF bytes.
pub broadcast proof fn lemma_digits_no_crlf(s: Seq<u8>)
    requires
        #[trigger] all_digits(s),
    ensures
        no_crlf(s),
{
}

/// Appending a digit multiplies the value by ten and adds the digit.
pub proof fn lemma_dec_val_push(s: Seq<u8>, d: u8)
    ensures
        dec_val(s.push(d)) == dec_val(s) * 10 + (d - 48),
{
    assert(s.push(d).drop_last() =~= s);
    assert(s.push(d).last() == d);
}

/// The value of a digit string is non-negative and grows (weakly) as digits
/// are appended.
pub proof fn lemma_dec_val_nonneg(s: Seq<u8>)
    requires
        all_digits(s),
    ensures
        dec_val(s) >= 0,
    decreases s,
{
    if s.len() > 0 {
        assert(all_digits(s.drop_last())) by {
            assert(forall|i: int|
                0 <= i < s.len() - 1 ==> is_digit_byte(#[trigger] s.drop_last()[i]));
        }
        lemma_dec_val_nonneg(s.drop_last());
        assert(s.last() >= 48);
    }
}

/// Appends the digits of `n` (nothing when `n` is zero) to `out`.
pub fn push_dec_digits(n: u64, out: &mut Vec<u8>)
    ensures
        final(out)@ == old(out)@ + dec_digits(n as int),
    decreases n,
{
    if n > 0 {
        push_dec_digits(n / 10, out);
        out.push(48u8 + (n % 10) as u8);
        assert(out@ =~= old(out)@ + dec_digits(n as int));
    } else {
        assert(out@ =~= old(out)@ + dec_digits(0));
    }
}

/// Appends the canonical decimal text of `n` to `out`.
pub fn push_dec_u64(n: u64, out: &mut Vec<u8>)
    ensures
        final(out)@ == old(out)@ + dec_nat(n as int),
{
    if n == 0 {
        out.push(48u8);
        assert(out@ =~= old(out)@ + dec_nat(0));
    } else {
        push_dec_digits(n, out);
    }
}

/// Appends the canonical decimal text of `n`, sign included, to `out`.
pub fn push_dec_i64(n: i64, out: &mut Vec<u8>)
    ensures
        final(out)@ == old(out)@ + dec_int(n as int),
{
    if n < 0 {
        out.push(45u8);
        let mag: u64 = if n == i64::MIN {
            9223372036854775808u64
        } else {
            (-n) as u64
        };
        assert(mag as int == -(n as int));
        push_dec_u64(mag, out);
        assert(out@ =~= old(out)@ + dec_int(n as int));
    } else {
        push_dec_u64(n as u64, out);
    }
}

} // verus!

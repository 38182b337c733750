//! Decimal text of integers.

use vstd::prelude::*;

verus! {

/// The ASCII digit for `d`, for `d` below ten.
pub open spec fn digit(d: nat) -> u8 {
    ('0' as u8 + d) as u8
}

/// The decimal digits of `n`, most significant first, without leading zeros;
/// zero is the single digit `0`.
pub open spec fn digits(n: nat) -> Seq<u8>
    decreases n,
{
    if n < 10 {
        seq![digit(n)]
    } else {
        digits(n / 10).push(digit(n % 10))
    }
}

/// A signed integer as text: a minus sign for a negative value, then the
/// digits of its magnitude. No suffix.
pub open spec fn signed_text(v: int) -> Seq<u8> {
    if v < 0 {
        seq!['-' as u8] + digits((-v) as nat)
    } else {
        digits(v as nat)
    }
}

/// An unsigned integer as text: its digits, then the suffix `u`.
pub open spec fn unsigned_text(n: nat) -> Seq<u8> {
    digits(n).push('u' as u8)
}

/// Appends the decimal digits of `n` to `out`.
pub fn push_digits(out: &mut Vec<u8>, n: u128)
    ensures
        final(out)@ == old(out)@ + digits(n as nat),
    decreases n,
{
    if n >= 10 {
        push_digits(out, n / 10);
    }
    let d: u8 = (n % 10) as u8;
    out.push('0' as u8 + d);
}

/// The text of a signed integer, as [`signed_text`] defines it.
pub fn signed_bytes(v: i128) -> (out: Vec<u8>)
    ensures
        out@ == signed_text(v as int),
{
    let mut out: Vec<u8> = Vec::new();
    if v < 0 {
        out.push('-' as u8);
        // `-(v + 1)` fits where `-v` may not.
        let magnitude: u128 = (-(v + 1)) as u128 + 1;
        push_digits(&mut out, magnitude);
    } else {
        push_digits(&mut out, v as u128);
    }
    out
}

/// The text of an unsigned integer, as [`unsigned_text`] defines it.
pub fn unsigned_bytes(n: u128) -> (out: Vec<u8>)
    ensures
        out@ == unsigned_text(n as nat),
{
    let mut out: Vec<u8> = Vec::new();
    push_digits(&mut out, n);
    out.push('u' as u8);
    out
}

/// One or more ASCII digits and nothing else.
pub open spec fn is_digits(text: Seq<u8>) -> bool {
    &&& text.len() > 0
    &&& forall|i: int| 0 <= i < text.len() ==> '0' as u8 <= #[trigger] text[i] <= '9' as u8
}

/// A signed integer token: digits, after a minus sign or not.
pub open spec fn is_signed_token(text: Seq<u8>) -> bool {
    is_digits(text) || (text.len() > 0 && text[0] == '-' as u8 && is_digits(text.skip(1)))
}

/// An unsigned integer token: digits, then the suffix `u`.
pub open spec fn is_unsigned_token(text: Seq<u8>) -> bool {
    text.len() > 0 && text.last() == 'u' as u8 && is_digits(text.drop_last())
}

/// The decimal digits of a number are digits.
pub proof fn lemma_digits(n: nat)
    ensures
        is_digits(digits(n)),
    decreases n,
{
    if n >= 10 {
        lemma_digits(n / 10);
    }
}

/// The text of a signed integer is a signed token, and so carries no suffix.
pub proof fn lemma_signed_text(v: int)
    ensures
        is_signed_token(signed_text(v)),
        signed_text(v).last() != 'u' as u8,
{
    if v < 0 {
        lemma_digits((-v) as nat);
        assert(signed_text(v).skip(1) =~= digits((-v) as nat));
    } else {
        lemma_digits(v as nat);
    }
}

/// The text of an unsigned integer is an unsigned token, and so ends in the
/// suffix.
pub proof fn lemma_unsigned_text(n: nat)
    ensures
        is_unsigned_token(unsigned_text(n)),
{
    lemma_digits(n);
    assert(unsigned_text(n).drop_last() =~= digits(n));
}

/// Every byte of `text` is ASCII.
pub open spec fn is_ascii_bytes(text: Seq<u8>) -> bool {
    forall|i: int| 0 <= i < text.len() ==> #[trigger] text[i] < 128
}

/// The text of an integer, signed or unsigned, is ASCII.
pub proof fn lemma_integer_ascii(v: int)
    ensures
        is_ascii_bytes(signed_text(v)),
        v >= 0 ==> is_ascii_bytes(unsigned_text(v as nat)),
{
    if v < 0 {
        lemma_digits((-v) as nat);
        let rest = digits((-v) as nat);
        assert forall|i: int| 0 <= i < signed_text(v).len() implies #[trigger] signed_text(v)[i]
            < 128 by {
            if i > 0 {
                assert(signed_text(v)[i] == rest[i - 1]);
            }
        }
    } else {
        lemma_digits(v as nat);
        let text = digits(v as nat);
        let whole = unsigned_text(v as nat);
        assert forall|i: int| 0 <= i < whole.len() implies #[trigger] whole[i] < 128 by {
            if i < text.len() {
                assert(whole[i] == text[i]);
            }
        }
    }
}

} // verus!

//! Binary and decimal numerals as character sequences.
//!
//! The machine's instructions and addresses are emitted as 16-character
//! strings of `'0'`/`'1'`, most-significant bit first; address operands are
//! read as unsigned decimal literals.  This module gives both numeral systems
//! their mathematical meaning and proves that they agree.

use vstd::prelude::*;
use vstd::arithmetic::power2::{pow2, lemma_pow2_unfold, lemma_pow2_pos};
use vstd::arithmetic::div_mod::{
    lemma_mod_breakdown, lemma_small_mod, lemma_add_mod_noop, lemma_mul_mod_noop_left,
};

verus! {

/// The binary numeral of `n mod 2^width`: a sequence of `width` characters,
/// each `'0'` or `'1'`, most-significant bit first.
pub open spec fn bin_of(n: nat, width: nat) -> Seq<char>
    decreases width,
{
    if width == 0 {
        Seq::empty()
    } else {
        bin_of(n / 2, (width - 1) as nat).push(if n % 2 == 1 { '1' } else { '0' })
    }
}

/// The value of a binary numeral read most-significant bit first, where any
/// character other than `'1'` counts as a zero bit.
pub open spec fn bin_val(s: Seq<char>) -> nat
    decreases s.len(),
{
    if s.len() == 0 {
        0
    } else {
        bin_val(s.drop_last()) * 2 + (if s.last() == '1' { 1nat } else { 0nat })
    }
}

/// An ASCII decimal digit.
pub open spec fn is_digit(c: char) -> bool {
    48 <= c as u32 && c as u32 <= 57
}

/// The numeric value of a decimal digit.
pub open spec fn digit_val(c: char) -> nat {
    (c as u32 - 48) as nat
}

/// A non-empty run of decimal digits: the shape of a numeric address operand.
pub open spec fn is_decimal(s: Seq<char>) -> bool {
    s.len() > 0 && forall|i: int| 0 <= i < s.len() ==> is_digit(#[trigger] s[i])
}

/// The value of a decimal numeral, most-significant digit first.
pub open spec fn dec_val(s: Seq<char>) -> nat
    decreases s.len(),
{
    if s.len() == 0 {
        0
    } else {
        dec_val(s.drop_last()) * 10 + digit_val(s.last())
    }
}

/// Text made of bit characters only.
pub open spec fn is_bits(s: Seq<char>) -> bool {
    forall|i: int| 0 <= i < s.len() ==> s[i] == '0' || s[i] == '1'
}

/// Every character of a binary numeral is `'0'` or `'1'`.
pub proof fn lemma_bin_of_chars(n: nat, width: nat)
    ensures
        bin_of(n, width).len() == width,
        forall|i: int|
            0 <= i < width ==> bin_of(n, width)[i] == '0' || bin_of(n, width)[i] == '1',
    decreases width,
{
    if width > 0 {
        lemma_bin_of_chars(n / 2, (width - 1) as nat);
    }
}

/// Reading a binary numeral back yields the encoded value modulo `2^width`.
pub proof fn lemma_bin_of_val(n: nat, width: nat)
    ensures
        bin_val(bin_of(n, width)) == n % pow2(width),
    decreases width,
{
    if width == 0 {
        assert(pow2(0) == 1) by {
            vstd::arithmetic::power2::lemma2_to64();
        }
        assert(n as int % 1 == 0) by {
            vstd::arithmetic::div_mod::lemma_mod_multiples_basic(n as int, 1);
            assert(n as int * 1 == n as int);
        }
    } else {
        let w1 = (width - 1) as nat;
        lemma_bin_of_val(n / 2, w1);
        lemma_bin_of_chars(n / 2, w1);
        let s = bin_of(n, width);
        assert(s.drop_last() =~= bin_of(n / 2, w1));
        lemma_pow2_pos(w1);
        lemma_pow2_unfold(width);
        assert(pow2(width) == 2 * pow2(w1));
        lemma_mod_breakdown(n as int, 2, pow2(w1) as int);
        assert(n as int % (2 * pow2(w1) as int) == 2 * ((n as int / 2) % (pow2(w1) as int))
            + n as int % 2);
    }
}

/// The numerals agree: a decimal literal no greater than `32767`, rendered as
/// a 16-bit binary numeral of its value (taken modulo `2^16`, as the encoder
/// does), reads back as the same number.
pub proof fn lemma_decimal_binary_round_trip(s: Seq<char>)
    requires
        is_decimal(s),
        dec_val(s) <= 32767,
    ensures
        bin_val(bin_of(dec_val(s) % 0x10000, 16)) == dec_val(s),
{
    let n = dec_val(s);
    lemma_small_mod(n, 0x10000);
    assert(pow2(16) == 0x10000) by {
        vstd::arithmetic::power2::lemma2_to64();
    }
    lemma_bin_of_val(n, 16);
    lemma_small_mod(n, pow2(16));
}

/// One step of reading a decimal numeral left to right, taken modulo `m`:
/// appending a digit multiplies the value by ten and adds the digit, and the
/// running remainder may stand in for the running value.
pub proof fn lemma_dec_val_step_mod(s: Seq<char>, c: char, m: int)
    requires
        m > 0,
    ensures
        dec_val(s.push(c)) as int % m == ((dec_val(s) as int % m) * 10 + digit_val(c) as int)
            % m,
{
    let v = dec_val(s) as int;
    let d = digit_val(c) as int;
    assert(s.push(c).drop_last() =~= s);
    assert(dec_val(s.push(c)) == v * 10 + d);
    lemma_mul_mod_noop_left(v, 10, m);
    lemma_add_mod_noop(v * 10, d, m);
    lemma_add_mod_noop((v % m) * 10, d, m);
}

} // verus!

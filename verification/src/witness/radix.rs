//! Little-endian positional notation: the value of a sequence of bytes or of
//! 32-bit digits, and the bytes of a value.

use vstd::prelude::*;
use vstd::arithmetic::power::pow;
use vstd::arithmetic::power::lemma_pow0;
use vstd::arithmetic::power::lemma_pow_positive;
use vstd::arithmetic::power::lemma_pow_adds;

verus! {

/// The base of a 32-bit digit.
pub open spec fn digit_base() -> int {
    0x1_0000_0000
}

/// The unsigned integer that `bytes` spell, least significant byte first.
pub open spec fn le_value(bytes: Seq<u8>) -> nat
    decreases bytes.len(),
{
    if bytes.len() == 0 {
        0
    } else {
        bytes[0] as nat + 256 * le_value(bytes.drop_first())
    }
}

/// The `len` least significant bytes of `value`, least significant first.
pub open spec fn le_bytes(value: nat, len: nat) -> Seq<u8>
    decreases len,
{
    if len == 0 {
        Seq::empty()
    } else {
        seq![(value % 256) as u8] + le_bytes(value / 256, (len - 1) as nat)
    }
}

/// The unsigned integer that `digits` spell in base 2^32, least significant
/// digit first.
pub open spec fn digits_value(digits: Seq<u32>) -> nat
    decreases digits.len(),
{
    if digits.len() == 0 {
        0
    } else {
        digits[0] as nat + 0x1_0000_0000 * digits_value(digits.drop_first())
    }
}

/// The bytes of `digits`, four to a digit, least significant first.
pub open spec fn digits_bytes(digits: Seq<u32>) -> Seq<u8>
    decreases digits.len(),
{
    if digits.len() == 0 {
        Seq::empty()
    } else {
        le_bytes(digits[0] as nat, 4) + digits_bytes(digits.drop_first())
    }
}

/// `256^len`: the first value that `len` bytes cannot hold.
pub open spec fn byte_capacity(len: nat) -> int {
    pow(256, len)
}

/// `len` bytes that are all zero.
pub open spec fn zero_bytes(len: nat) -> Seq<u8> {
    Seq::new(len, |i: int| 0u8)
}

/// Capacity is positive, and one more byte multiplies it by 256.
pub proof fn lemma_byte_capacity_step(len: nat)
    ensures
        byte_capacity(0) == 1,
        byte_capacity(len + 1) == 256 * byte_capacity(len),
        byte_capacity(len) > 0,
{
    lemma_pow0(256);
    lemma_pow_positive(256, len);
    reveal(pow);
}

/// The capacities of one to four bytes.
pub proof fn lemma_byte_capacity_small()
    ensures
        byte_capacity(1) == 0x100,
        byte_capacity(2) == 0x1_0000,
        byte_capacity(3) == 0x100_0000,
        byte_capacity(4) == 0x1_0000_0000,
{
    lemma_byte_capacity_step(0);
    lemma_byte_capacity_step(1);
    lemma_byte_capacity_step(2);
    lemma_byte_capacity_step(3);
}

/// The capacity of two lengths together is the product of their capacities.
pub proof fn lemma_byte_capacity_adds(a: nat, b: nat)
    ensures
        byte_capacity(a + b) == byte_capacity(a) * byte_capacity(b),
{
    lemma_pow_adds(256, a, b);
}

/// `le_bytes` gives as many bytes as it is asked for.
pub proof fn lemma_le_bytes_len(value: nat, len: nat)
    ensures
        le_bytes(value, len).len() == len,
    decreases len,
{
    if len > 0 {
        lemma_le_bytes_len(value / 256, (len - 1) as nat);
    }
}

/// A sequence of bytes spells a value below the capacity of its length.
pub proof fn lemma_le_value_bound(bytes: Seq<u8>)
    ensures
        le_value(bytes) < byte_capacity(bytes.len()),
    decreases bytes.len(),
{
    if bytes.len() == 0 {
        lemma_byte_capacity_step(0);
    } else {
        let rest = bytes.drop_first();
        lemma_le_value_bound(rest);
        lemma_byte_capacity_step(rest.len());
        assert(bytes.len() == rest.len() + 1);
    }
}

/// The bytes of a value that fits spell that value.
pub proof fn lemma_le_value_of_bytes(value: nat, len: nat)
    requires
        value < byte_capacity(len),
    ensures
        le_value(le_bytes(value, len)) == value,
    decreases len,
{
    if len == 0 {
        lemma_byte_capacity_step(0);
    } else {
        let rest_len = (len - 1) as nat;
        lemma_byte_capacity_step(rest_len);
        assert(value / 256 < byte_capacity(rest_len));
        lemma_le_value_of_bytes(value / 256, rest_len);
        let b = le_bytes(value, len);
        assert(b.drop_first() =~= le_bytes(value / 256, rest_len));
        assert(b[0] == (value % 256) as u8);
    }
}

/// The bytes of the value that a sequence spells are that sequence.
pub proof fn lemma_le_bytes_of_value(bytes: Seq<u8>)
    ensures
        le_bytes(le_value(bytes), bytes.len()) == bytes,
    decreases bytes.len(),
{
    if bytes.len() > 0 {
        let rest = bytes.drop_first();
        lemma_le_bytes_of_value(rest);
        let v = le_value(bytes);
        assert(v % 256 == bytes[0] as nat);
        assert(v / 256 == le_value(rest));
        assert(le_bytes(v, bytes.len()) =~= bytes);
    } else {
        assert(le_bytes(le_value(bytes), 0) =~= bytes);
    }
}

/// The value of a concatenation: the second part counts from the capacity of
/// the first.
pub proof fn lemma_le_value_concat(a: Seq<u8>, b: Seq<u8>)
    ensures
        le_value(a + b) == le_value(a) + byte_capacity(a.len()) * le_value(b),
    decreases a.len(),
{
    if a.len() == 0 {
        lemma_byte_capacity_step(0);
        assert(a + b =~= b);
    } else {
        let rest = a.drop_first();
        lemma_le_value_concat(rest, b);
        lemma_byte_capacity_step(rest.len());
        assert((a + b).drop_first() =~= rest + b);
        assert(a.len() == rest.len() + 1);
        assert(256 * (byte_capacity(rest.len()) * le_value(b)) == (256 * byte_capacity(rest.len()))
            * le_value(b)) by (nonlinear_arith);
    }
}

/// Zero bytes spell zero.
pub proof fn lemma_le_value_zero_bytes(len: nat)
    ensures
        le_value(zero_bytes(len)) == 0,
        le_bytes(0, len) == zero_bytes(len),
    decreases len,
{
    if len > 0 {
        lemma_le_value_zero_bytes((len - 1) as nat);
        assert(zero_bytes(len).drop_first() =~= zero_bytes((len - 1) as nat));
        assert(le_bytes(0, len) =~= zero_bytes(len));
    } else {
        assert(le_bytes(0, len) =~= zero_bytes(len));
    }
}

/// Four bytes spell `b0 + 2^8 b1 + 2^16 b2 + 2^24 b3`.
pub proof fn lemma_le_value_word(bytes: Seq<u8>)
    requires
        bytes.len() == 4,
    ensures
        le_value(bytes) == bytes[0] + 0x100 * bytes[1] + 0x1_0000 * bytes[2] + 0x100_0000
            * bytes[3],
        le_value(bytes) < 0x1_0000_0000,
{
    let s1 = bytes.drop_first();
    let s2 = s1.drop_first();
    let s3 = s2.drop_first();
    let s4 = s3.drop_first();
    assert(le_value(s4) == 0);
    assert(le_value(s3) == s3[0] + 256 * le_value(s4));
    assert(le_value(s2) == s2[0] + 256 * le_value(s3));
    assert(le_value(s1) == s1[0] + 256 * le_value(s2));
    assert(le_value(bytes) == bytes[0] + 256 * le_value(s1));
}

/// The four bytes of a 32-bit word.
pub proof fn lemma_le_bytes_word(word: nat)
    requires
        word < 0x1_0000_0000,
    ensures
        le_bytes(word, 4) == seq![
            (word % 256) as u8,
            ((word / 0x100) % 256) as u8,
            ((word / 0x1_0000) % 256) as u8,
            ((word / 0x100_0000) % 256) as u8,
        ],
{
    let w1 = word / 256;
    let w2 = w1 / 256;
    let w3 = w2 / 256;
    assert(w2 == word / 0x1_0000);
    assert(w3 == word / 0x100_0000);
    assert(le_bytes(w3 / 256, 0) =~= Seq::<u8>::empty());
    assert(le_bytes(w3, 1) =~= seq![(w3 % 256) as u8]);
    assert(le_bytes(w2, 2) =~= seq![(w2 % 256) as u8, (w3 % 256) as u8]);
    assert(le_bytes(w1, 3) =~= seq![(w1 % 256) as u8, (w2 % 256) as u8, (w3 % 256) as u8]);
    assert(le_bytes(word, 4) =~= seq![
        (word % 256) as u8,
        (w1 % 256) as u8,
        (w2 % 256) as u8,
        (w3 % 256) as u8,
    ]);
}

/// A digit takes four bytes.
pub proof fn lemma_digits_bytes_len(digits: Seq<u32>)
    ensures
        digits_bytes(digits).len() == 4 * digits.len(),
    decreases digits.len(),
{
    if digits.len() > 0 {
        lemma_digits_bytes_len(digits.drop_first());
        lemma_le_bytes_len(digits[0] as nat, 4);
    }
}

/// The bytes of a sequence of digits spell the value of the digits.
pub proof fn lemma_digits_bytes_value(digits: Seq<u32>)
    ensures
        le_value(digits_bytes(digits)) == digits_value(digits),
    decreases digits.len(),
{
    if digits.len() > 0 {
        let rest = digits.drop_first();
        lemma_digits_bytes_value(rest);
        lemma_byte_capacity_small();
        lemma_le_value_of_bytes(digits[0] as nat, 4);
        lemma_le_bytes_len(digits[0] as nat, 4);
        lemma_le_value_concat(le_bytes(digits[0] as nat, 4), digits_bytes(rest));
    }
}

/// One more digit at the top adds its four bytes at the end.
pub proof fn lemma_digits_bytes_push(digits: Seq<u32>, digit: u32)
    ensures
        digits_bytes(digits.push(digit)) == digits_bytes(digits) + le_bytes(digit as nat, 4),
    decreases digits.len(),
{
    if digits.len() == 0 {
        let one = digits.push(digit);
        assert(one.drop_first() =~= Seq::<u32>::empty());
        assert(digits_bytes(one.drop_first()) =~= Seq::<u8>::empty());
        assert(one[0] == digit);
        assert(digits_bytes(digits) =~= Seq::<u8>::empty());
        assert(digits_bytes(one) =~= le_bytes(digit as nat, 4));
        assert(digits_bytes(digits) + le_bytes(digit as nat, 4) =~= le_bytes(digit as nat, 4));
    } else {
        let rest = digits.drop_first();
        lemma_digits_bytes_push(rest, digit);
        assert(digits.push(digit).drop_first() =~= rest.push(digit));
        assert(digits_bytes(digits.push(digit)) =~= digits_bytes(digits) + le_bytes(
            digit as nat,
            4,
        ));
    }
}

/// The value of digits is that of their bytes, so the two notations agree on
/// what a value looks like in memory.
pub proof fn lemma_digits_bytes_are_le_bytes(digits: Seq<u32>)
    ensures
        digits_bytes(digits) == le_bytes(digits_value(digits), 4 * digits.len()),
        digits_value(digits) < byte_capacity(4 * digits.len()),
{
    lemma_digits_bytes_len(digits);
    lemma_digits_bytes_value(digits);
    lemma_le_bytes_of_value(digits_bytes(digits));
    lemma_le_value_bound(digits_bytes(digits));
}

/// A most significant digit that is not zero puts the value at or above the
/// capacity of the digits below it.
pub proof fn lemma_digits_value_lower_bound(digits: Seq<u32>)
    requires
        digits.len() > 0,
        digits.last() != 0,
    ensures
        digits_value(digits) >= byte_capacity((4 * (digits.len() - 1)) as nat),
    decreases digits.len(),
{
    if digits.len() == 1 {
        lemma_byte_capacity_step(0);
        assert(digits.drop_first().len() == 0);
    } else {
        let rest = digits.drop_first();
        assert(rest.last() == digits.last());
        lemma_digits_value_lower_bound(rest);
        let below = (4 * (rest.len() - 1)) as nat;
        lemma_byte_capacity_small();
        lemma_byte_capacity_adds(4, below);
        assert((4 * (digits.len() - 1)) as nat == 4 + below);
        assert(0x1_0000_0000 * digits_value(rest) >= 0x1_0000_0000 * byte_capacity(below))
            by (nonlinear_arith)
            requires
                digits_value(rest) >= byte_capacity(below),
        ;
    }
}

/// Zero digits above the most significant one do not change the value.
pub proof fn lemma_digits_value_push_zero(digits: Seq<u32>)
    ensures
        digits_value(digits.push(0)) == digits_value(digits),
    decreases digits.len(),
{
    let pushed = digits.push(0);
    if digits.len() == 0 {
        assert(pushed.drop_first() =~= Seq::<u32>::empty());
        assert(digits_value(pushed.drop_first()) == 0);
        assert(pushed[0] == 0);
    } else {
        lemma_digits_value_push_zero(digits.drop_first());
        assert(pushed.drop_first() =~= digits.drop_first().push(0));
        assert(pushed[0] == digits[0]);
    }
}

/// Capacity grows with the length.
pub proof fn lemma_byte_capacity_increases(a: nat, b: nat)
    requires
        a <= b,
    ensures
        byte_capacity(a) <= byte_capacity(b),
{
    vstd::arithmetic::power::lemma_pow_increases(256, a, b);
}

/// The value of one digit, and of two.
pub proof fn lemma_digits_value_short(digits: Seq<u32>)
    ensures
        digits.len() == 0 ==> digits_value(digits) == 0,
        digits.len() == 1 ==> digits_value(digits) == digits[0],
        digits.len() == 2 ==> digits_value(digits) == digits[0] + 0x1_0000_0000 * digits[1],
{
    if digits.len() == 1 {
        assert(digits_value(digits.drop_first()) == 0);
    } else if digits.len() == 2 {
        let rest = digits.drop_first();
        assert(digits_value(rest.drop_first()) == 0);
        assert(digits_value(rest) == rest[0] + 0x1_0000_0000 * digits_value(rest.drop_first()));
        assert(rest[0] == digits[1]);
    }
}

/// `len` digits that are all zero.
pub open spec fn zero_digits(len: nat) -> Seq<u32> {
    Seq::new(len, |i: int| 0u32)
}

/// Zero digits above the most significant one do not change the value.
pub proof fn lemma_digits_value_pad(digits: Seq<u32>, extra: nat)
    ensures
        digits_value(digits + zero_digits(extra)) == digits_value(digits),
    decreases extra,
{
    if extra == 0 {
        assert(digits + zero_digits(0) =~= digits);
    } else {
        let shorter = digits + zero_digits((extra - 1) as nat);
        lemma_digits_value_pad(digits, (extra - 1) as nat);
        lemma_digits_value_push_zero(shorter);
        assert(digits + zero_digits(extra) =~= shorter.push(0));
    }
}

} // verus!

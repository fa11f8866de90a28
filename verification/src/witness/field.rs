//! Field elements as the codec handles them: signed integers of any size,
//! held as a sign and base 2^32 digits.

use vstd::prelude::*;
use num_bigint::BigUint;
use crate::witness::radix::byte_capacity;
use crate::witness::radix::digits_bytes;
use crate::witness::radix::digits_value;
use crate::witness::radix::le_bytes;
use crate::witness::radix::le_value;
use crate::witness::radix::zero_bytes;
use crate::witness::radix::zero_digits;
use crate::witness::radix::lemma_byte_capacity_step;
use crate::witness::radix::lemma_digits_bytes_are_le_bytes;
use crate::witness::radix::lemma_digits_bytes_push;
use crate::witness::radix::lemma_digits_bytes_value;
use crate::witness::radix::lemma_digits_value_pad;
use crate::witness::radix::lemma_le_bytes_of_value;
use crate::witness::radix::lemma_le_bytes_word;
use crate::witness::radix::lemma_le_value_concat;
use crate::witness::radix::lemma_le_value_word;
use crate::witness::radix::lemma_le_value_zero_bytes;
use crate::witness::radix::lemma_byte_capacity_adds;
use crate::witness::radix::lemma_byte_capacity_increases;
use crate::witness::radix::lemma_byte_capacity_small;
use crate::witness::radix::lemma_digits_value_lower_bound;
use crate::witness::radix::lemma_digits_value_push_zero;
use crate::witness::radix::lemma_digits_value_short;

verus! {

/// The sign of a field element.
#[derive(Clone, Copy, Debug, PartialEq, Eq, Structural)]
pub enum Sign {
    Minus,
    NoSign,
    Plus,
}

/// The integer with the given sign and magnitude. `NoSign` is zero whatever
/// the magnitude.
pub open spec fn signed_value(sign: Sign, magnitude: nat) -> int {
    match sign {
        Sign::Minus => -(magnitude as int),
        Sign::NoSign => 0,
        Sign::Plus => magnitude as int,
    }
}

/// The absolute value.
pub open spec fn magnitude(value: int) -> nat {
    if value < 0 {
        (-value) as nat
    } else {
        value as nat
    }
}

/// A signed integer of any size. Its view is the integer.
///
/// The digits are kept without a zero in the most significant place, and the
/// sign is `NoSign` exactly for zero, so that equal integers are equal values.
#[derive(Clone, Debug, PartialEq, Eq)]
pub struct FieldElement {
    sign: Sign,
    digits: Vec<u32>,
}

impl View for FieldElement {
    type V = int;

    closed spec fn view(&self) -> int {
        signed_value(self.sign, digits_value(self.digits@))
    }
}

impl FieldElement {
    /// The representation invariant: no leading zero digit, and `NoSign`
    /// exactly for zero.
    pub closed spec fn wf(&self) -> bool {
        &&& self.digits@.len() == 0 <==> self.sign == Sign::NoSign
        &&& self.digits@.len() > 0 ==> self.digits@.last() != 0
    }

    /// The element with the given sign and base 2^32 digits, least
    /// significant first. Zero digits in the most significant places are
    /// dropped; `NoSign` gives zero.
    pub fn new(sign: Sign, digits: Vec<u32>) -> (r: FieldElement)
        ensures
            r.wf(),
            r@ == signed_value(sign, digits_value(digits@)),
    {
        let ghost given = digits@;
        let mut digits = digits;
        while digits.len() > 0 && digits[digits.len() - 1] == 0
            invariant
                digits_value(digits@) == digits_value(given),
            decreases digits.len(),
        {
            let ghost before = digits@;
            digits.pop();
            proof {
                assert(before =~= digits@.push(0));
                lemma_digits_value_push_zero(digits@);
            }
        }
        if digits.len() == 0 {
            FieldElement { sign: Sign::NoSign, digits }
        } else {
            match sign {
                Sign::NoSign => FieldElement { sign: Sign::NoSign, digits: Vec::new() },
                Sign::Minus => FieldElement { sign: Sign::Minus, digits },
                Sign::Plus => FieldElement { sign: Sign::Plus, digits },
            }
        }
    }

    /// Zero.
    pub fn zero() -> (r: FieldElement)
        ensures
            r.wf(),
            r@ == 0,
    {
        FieldElement { sign: Sign::NoSign, digits: Vec::new() }
    }

    /// The element equal to `value`.
    pub fn from_u32(value: u32) -> (r: FieldElement)
        ensures
            r.wf(),
            r@ == value,
    {
        let mut digits: Vec<u32> = Vec::new();
        digits.push(value);
        proof {
            lemma_digits_value_short(digits@);
        }
        FieldElement::new(Sign::Plus, digits)
    }

    /// The element equal to `value`.
    pub fn from_i64(value: i64) -> (r: FieldElement)
        ensures
            r.wf(),
            r@ == value,
    {
        let size: u64 = if value >= 0 {
            value as u64
        } else if value == i64::MIN {
            0x8000_0000_0000_0000u64
        } else {
            (-value) as u64
        };
        let low: u32 = (size % 0x1_0000_0000) as u32;
        let high: u32 = (size / 0x1_0000_0000) as u32;
        let mut digits: Vec<u32> = Vec::new();
        digits.push(low);
        digits.push(high);
        proof {
            lemma_digits_value_short(digits@);
        }
        let sign = if value < 0 {
            Sign::Minus
        } else {
            Sign::Plus
        };
        FieldElement::new(sign, digits)
    }

    /// The sign and the base 2^32 digits, least significant first, with no
    /// zero in the most significant place.
    pub fn to_u32_digits(&self) -> (r: (Sign, Vec<u32>))
        requires
            self.wf(),
        ensures
            self@ == signed_value(r.0, digits_value(r.1@)),
            r.1@.len() == 0 <==> r.0 == Sign::NoSign,
            r.1@.len() > 0 ==> r.1@.last() != 0,
    {
        let digits = self.digits.clone();
        assert(digits@ =~= self.digits@);
        (self.sign, digits)
    }

    /// Whether the element is below zero.
    pub fn is_negative(&self) -> (r: bool)
        requires
            self.wf(),
        ensures
            r == (self@ < 0),
    {
        proof {
            self.lemma_magnitude_positive();
        }
        match self.sign {
            Sign::Minus => true,
            _ => false,
        }
    }

    /// The element as an `i64`, if it is in that type's range.
    pub fn to_i64(&self) -> (r: Option<i64>)
        requires
            self.wf(),
        ensures
            match r {
                Some(v) => v == self@,
                None => self@ < i64::MIN || self@ > i64::MAX,
            },
    {
        let count = self.digits.len();
        if count == 0 {
            return Some(0);
        }
        if count > 2 {
            proof {
                lemma_digits_value_lower_bound(self.digits@);
                lemma_byte_capacity_small();
                lemma_byte_capacity_adds(4, 4);
                lemma_byte_capacity_increases(8, (4 * (count - 1)) as nat);
            }
            return None;
        }
        let low: u64 = self.digits[0] as u64;
        let high: u64 = if count == 2 {
            self.digits[1] as u64
        } else {
            0
        };
        let size: u64 = low + high * 0x1_0000_0000;
        proof {
            lemma_digits_value_short(self.digits@);
        }
        match self.sign {
            Sign::NoSign => Some(0),
            Sign::Plus => {
                if size <= 0x7fff_ffff_ffff_ffff {
                    Some(size as i64)
                } else {
                    None
                }
            },
            Sign::Minus => {
                if size < 0x8000_0000_0000_0000 {
                    Some(-(size as i64))
                } else if size == 0x8000_0000_0000_0000 {
                    Some(i64::MIN)
                } else {
                    None
                }
            },
        }
    }

    /// The element that `bytes` spell as an unsigned integer, least
    /// significant byte first.
    pub fn from_le_bytes(bytes: &Vec<u8>) -> (r: FieldElement)
        ensures
            r.wf(),
            r@ == le_value(bytes@),
    {
        let mut digits: Vec<u32> = Vec::new();
        let full: usize = bytes.len() / 4;
        let mut i: usize = 0;
        while i < full
            invariant
                i <= full,
                full == bytes@.len() / 4,
                4 * full <= bytes.len(),
                digits_bytes(digits@) == bytes@.subrange(0, 4 * i),
            decreases full - i,
        {
            let word: u32 = (bytes[4 * i] as u32) + (bytes[4 * i + 1] as u32) * 0x100 + (bytes[4 * i
                + 2] as u32) * 0x1_0000 + (bytes[4 * i + 3] as u32) * 0x100_0000;
            proof {
                let group = bytes@.subrange(4 * i, 4 * i + 4);
                lemma_le_value_word(group);
                lemma_le_bytes_of_value(group);
                lemma_digits_bytes_push(digits@, word);
                assert(bytes@.subrange(0, 4 * i) + group =~= bytes@.subrange(0, 4 * i + 4));
            }
            digits.push(word);
            i += 1;
        }
        let rest: usize = bytes.len() - 4 * full;
        if rest > 0 {
            let b0: u32 = bytes[4 * full] as u32;
            let b1: u32 = if rest > 1 {
                bytes[4 * full + 1] as u32
            } else {
                0
            };
            let b2: u32 = if rest > 2 {
                bytes[4 * full + 2] as u32
            } else {
                0
            };
            let word: u32 = b0 + b1 * 0x100 + b2 * 0x1_0000;
            proof {
                let tail = bytes@.subrange(4 * full, bytes@.len() as int);
                let group = tail + zero_bytes((4 - rest) as nat);
                lemma_le_value_word(group);
                lemma_le_bytes_of_value(group);
                lemma_digits_bytes_push(digits@, word);
                lemma_le_value_concat(bytes@, zero_bytes((4 - rest) as nat));
                lemma_le_value_zero_bytes((4 - rest) as nat);
                assert(bytes@.subrange(0, 4 * full) + group =~= bytes@ + zero_bytes(
                    (4 - rest) as nat,
                ));
            }
            digits.push(word);
            proof {
                lemma_digits_bytes_value(digits@);
            }
        } else {
            proof {
                assert(bytes@.subrange(0, 4 * full) =~= bytes@);
                lemma_digits_bytes_value(digits@);
            }
        }
        FieldElement::new(Sign::Plus, digits)
    }

    /// The magnitude in `count` digits' worth of bytes, least significant
    /// first and zero above what the magnitude needs; `None` if it needs more.
    pub fn to_le_bytes(&self, count: usize) -> (r: Option<Vec<u8>>)
        requires
            self.wf(),
            4 * count <= usize::MAX,
        ensures
            match r {
                Some(bytes) => magnitude(self@) < byte_capacity((4 * count) as nat) && bytes@
                    == le_bytes(magnitude(self@), (4 * count) as nat),
                None => magnitude(self@) >= byte_capacity((4 * count) as nat),
            },
    {
        let held: usize = self.digits.len();
        proof {
            self.lemma_magnitude();
        }
        if held > count {
            proof {
                lemma_digits_value_lower_bound(self.digits@);
                lemma_byte_capacity_increases((4 * count) as nat, (4 * (held - 1)) as nat);
            }
            return None;
        }
        let ghost padded = self.digits@ + zero_digits((count - held) as nat);
        let mut out: Vec<u8> = Vec::new();
        let mut i: usize = 0;
        while i < count
            invariant
                i <= count,
                held <= count,
                held == self.digits@.len(),
                padded == self.digits@ + zero_digits((count - held) as nat),
                out@ == digits_bytes(padded.subrange(0, i as int)),
            decreases count - i,
        {
            let word: u32 = if i < held {
                self.digits[i]
            } else {
                0
            };
            proof {
                lemma_le_bytes_word(word as nat);
                lemma_digits_bytes_push(padded.subrange(0, i as int), word);
                assert(padded.subrange(0, i + 1) =~= padded.subrange(0, i as int).push(word));
            }
            let ghost before = out@;
            out.push((word % 0x100) as u8);
            out.push(((word / 0x100) % 0x100) as u8);
            out.push(((word / 0x1_0000) % 0x100) as u8);
            out.push(((word / 0x100_0000) % 0x100) as u8);
            proof {
                assert(out@ =~= before + le_bytes(word as nat, 4));
            }
            i += 1;
        }
        proof {
            assert(padded.subrange(0, count as int) =~= padded);
            lemma_digits_bytes_are_le_bytes(padded);
            lemma_digits_value_pad(self.digits@, (count - held) as nat);
        }
        Some(out)
    }

    /// The remainder of `self * factor` on division by `modulus`.
    pub(crate) fn times_modulo(&self, factor: &FieldElement, modulus: &FieldElement) -> (r:
        FieldElement)
        requires
            self.wf(),
            factor.wf(),
            modulus.wf(),
            self@ >= 0,
            factor@ >= 0,
            modulus@ > 0,
        ensures
            r.wf(),
            r@ == (self@ * factor@) % modulus@,
    {
        proof {
            self.lemma_magnitude();
            factor.lemma_magnitude();
            modulus.lemma_magnitude();
        }
        let product = digits_product(&self.digits, &factor.digits);
        let remainder = digits_remainder(&product, &modulus.digits);
        FieldElement::new(Sign::Plus, remainder)
    }

    /// The digits hold the magnitude.
    proof fn lemma_magnitude(&self)
        requires
            self.wf(),
        ensures
            magnitude(self@) == digits_value(self.digits@),
            self@ >= 0 ==> self@ == digits_value(self.digits@),
    {
        self.lemma_magnitude_positive();
        if self.digits@.len() == 0 {
            lemma_digits_value_short(self.digits@);
        }
    }

    /// An element that is not zero has a magnitude of at least one.
    proof fn lemma_magnitude_positive(&self)
        requires
            self.wf(),
        ensures
            self.sign == Sign::Minus ==> self@ < 0,
            self.sign == Sign::Plus ==> self@ > 0,
            self.sign == Sign::NoSign ==> self@ == 0,
    {
        if self.digits@.len() > 0 {
            lemma_digits_value_lower_bound(self.digits@);
            lemma_byte_capacity_step((4 * (self.digits@.len() - 1)) as nat);
        }
    }
}

/// `BigUint`'s `*` on the numbers that two digit sequences spell: the digits
/// of the product, with no zero in the most significant place.
#[verifier::external_body]
fn digits_product(a: &Vec<u32>, b: &Vec<u32>) -> (r: Vec<u32>)
    ensures
        digits_value(r@) == digits_value(a@) * digits_value(b@),
        r@.len() > 0 ==> r@.last() != 0,
{
    (BigUint::new(a.clone()) * BigUint::new(b.clone())).to_u32_digits()
}

/// `BigUint`'s `%` on the numbers that two digit sequences spell: the digits
/// of the remainder, with no zero in the most significant place. The divisor
/// is not zero, on which `%` panics.
#[verifier::external_body]
fn digits_remainder(a: &Vec<u32>, divisor: &Vec<u32>) -> (r: Vec<u32>)
    requires
        digits_value(divisor@) != 0,
    ensures
        digits_value(r@) == digits_value(a@) % digits_value(divisor@),
        r@.len() > 0 ==> r@.last() != 0,
{
    (BigUint::new(a.clone()) % BigUint::new(divisor.clone())).to_u32_digits()
}

} // verus!

//! The field-element memory codec: typed reads and writes of 32-bit words and
//! of field elements in the linear memory of a module instance.
//!
//! Layout of the region: the word at offset 0 is the allocation cursor, the
//! next free offset. An element is a value word, a tag word, and for the long
//! form the digits of the value after them.

use std::sync::Arc;
use std::sync::RwLock;
use vstd::prelude::*;
use wasmer::Memory;
use wasmer::Store;
use crate::witness::error::WitnessError;
use crate::witness::field::FieldElement;
use crate::witness::field::Sign;
use crate::witness::layout::Form;
use crate::witness::layout::after_alloc;
use crate::witness::layout::cursor;
use crate::witness::layout::decoded;
use crate::witness::layout::encodable;
use crate::witness::layout::encoding;
use crate::witness::layout::encoding_len;
use crate::witness::layout::form_of;
use crate::witness::layout::lemma_encoding_len;
use crate::witness::layout::r_inv;
use crate::witness::layout::readable_at;
use crate::witness::layout::short_max;
use crate::witness::layout::short_min;
use crate::witness::layout::short_negative_word;
use crate::witness::layout::splice;
use crate::witness::layout::word_at;
use crate::witness::radix::digits_value;
use crate::witness::radix::le_bytes;
use crate::witness::radix::le_value;
use crate::witness::radix::lemma_digits_value_short;
use crate::witness::radix::lemma_le_bytes_len;
use crate::witness::radix::lemma_le_bytes_word;
use crate::witness::radix::lemma_le_value_word;
use crate::witness::region::region_belongs;
use crate::witness::region::region_bytes;
use crate::witness::region::region_in_store;
use crate::witness::region::region_read;
use crate::witness::region::region_size;
use crate::witness::region::region_write;

verus! {

/// The form in which `fr` is written.
pub fn form(fr: &FieldElement) -> (r: Form)
    requires
        fr.wf(),
    ensures
        r == form_of(fr@),
{
    match fr.to_i64() {
        Some(v) => {
            if -0x8000_0000 < v && v < 0x8000_0000 {
                if v >= 0 {
                    Form::ShortPositive
                } else {
                    Form::ShortNegative
                }
            } else {
                Form::Long
            }
        },
        None => Form::Long,
    }
}

/// The four bytes of a word, least significant first.
pub fn word_bytes(word: u32) -> (r: Vec<u8>)
    ensures
        r@ == le_bytes(word as nat, 4),
{
    let mut out: Vec<u8> = Vec::new();
    out.push((word % 0x100) as u8);
    out.push(((word / 0x100) % 0x100) as u8);
    out.push(((word / 0x1_0000) % 0x100) as u8);
    out.push(((word / 0x100_0000) % 0x100) as u8);
    proof {
        lemma_le_bytes_word(word as nat);
        assert(out@ =~= le_bytes(word as nat, 4));
    }
    out
}

/// The word that the first four bytes spell, least significant first.
pub fn bytes_word(bytes: &Vec<u8>) -> (r: u32)
    requires
        bytes@.len() >= 4,
    ensures
        r == le_value(bytes@.subrange(0, 4)),
{
    proof {
        lemma_le_value_word(bytes@.subrange(0, 4));
    }
    (bytes[0] as u32) + (bytes[1] as u32) * 0x100 + (bytes[2] as u32) * 0x1_0000 + (bytes[3] as u32)
        * 0x100_0000
}

/// The bytes that stand for `fr` with `limbs_32` digits of long storage, or
/// `EncodingLimitation` where the long form does not hold the value.
pub fn encode(fr: &FieldElement, limbs_32: usize) -> (r: Result<Vec<u8>, WitnessError>)
    requires
        fr.wf(),
        4 * limbs_32 + 8 <= usize::MAX,
    ensures
        match r {
            Ok(data) => encodable(fr@, limbs_32 as nat) && data@ == encoding(fr@, limbs_32 as nat),
            Err(e) => e == WitnessError::EncodingLimitation && !encodable(fr@, limbs_32 as nat),
        },
{
    match form(fr) {
        Form::ShortPositive => Ok(short_positive_bytes(fr)),
        Form::ShortNegative => Ok(short_negative_bytes(fr)),
        Form::Long => long_bytes(fr, limbs_32),
    }
}

/// The value word and the zero tag word of a short value that is not
/// negative.
fn short_positive_bytes(fr: &FieldElement) -> (r: Vec<u8>)
    requires
        fr.wf(),
        form_of(fr@) == Form::ShortPositive,
    ensures
        r@ == le_bytes(fr@ as nat, 4) + le_bytes(0, 4),
{
    let word: u32 = match fr.to_i64() {
        Some(v) => v as u32,
        None => 0,
    };
    let mut data = word_bytes(word);
    let mut tag = word_bytes(0);
    data.append(&mut tag);
    data
}

/// The value word and the zero tag word of a short negative value: the value
/// is moved up by 2^32 into the range of a word.
fn short_negative_bytes(fr: &FieldElement) -> (r: Vec<u8>)
    requires
        fr.wf(),
        form_of(fr@) == Form::ShortNegative,
    ensures
        r@ == le_bytes(short_negative_word(fr@) as nat, 4) + le_bytes(0, 4),
{
    let word: u32 = match fr.to_i64() {
        Some(v) => (((v - (-0x8000_0000i64)) - 0x8000_0000i64) + 0x1_0000_0000i64) as u32,
        None => 0,
    };
    let mut data = word_bytes(word);
    let mut tag = word_bytes(0);
    data.append(&mut tag);
    data
}

/// The zero value word, the long tag and the digits of a long value.
fn long_bytes(fr: &FieldElement, limbs_32: usize) -> (r: Result<Vec<u8>, WitnessError>)
    requires
        fr.wf(),
        form_of(fr@) == Form::Long,
        4 * limbs_32 + 8 <= usize::MAX,
    ensures
        match r {
            Ok(data) => encodable(fr@, limbs_32 as nat) && data@ == encoding(fr@, limbs_32 as nat),
            Err(e) => e == WitnessError::EncodingLimitation && !encodable(fr@, limbs_32 as nat),
        },
{
    if fr.is_negative() {
        return Err(WitnessError::EncodingLimitation);
    }
    match fr.to_le_bytes(limbs_32) {
        Some(digits) => {
            let mut data = word_bytes(0);
            let mut tag = word_bytes(0x8000_0000);
            let mut digits = digits;
            data.append(&mut tag);
            data.append(&mut digits);
            Ok(data)
        },
        None => Err(WitnessError::EncodingLimitation),
    }
}

/// The factor that takes a stored Montgomery value to the value it stands for.
pub fn montgomery_inverse() -> (r: FieldElement)
    ensures
        r.wf(),
        r@ == r_inv(),
{
    let mut digits: Vec<u32> = Vec::new();
    digits.push(0x6db1_194e);
    digits.push(0xdc5b_a005);
    digits.push(0xe111_ec87);
    digits.push(0x090e_f5a9);
    digits.push(0xaeb8_5d5d);
    digits.push(0xc826_0de4);
    digits.push(0x82c5_551c);
    digits.push(0x15eb_f951);
    proof {
        let d = digits@;
        let t7 = d.subrange(7, 8);
        let t6 = d.subrange(6, 8);
        let t5 = d.subrange(5, 8);
        let t4 = d.subrange(4, 8);
        let t3 = d.subrange(3, 8);
        let t2 = d.subrange(2, 8);
        let t1 = d.subrange(1, 8);
        lemma_digits_value_short(t7);
        assert(t6.drop_first() =~= t7);
        assert(t5.drop_first() =~= t6);
        assert(t4.drop_first() =~= t5);
        assert(t3.drop_first() =~= t4);
        assert(t2.drop_first() =~= t3);
        assert(t1.drop_first() =~= t2);
        assert(d.drop_first() =~= t1);
        assert(digits_value(t6) == t6[0] + 0x1_0000_0000 * digits_value(t7));
        assert(digits_value(t5) == t5[0] + 0x1_0000_0000 * digits_value(t6));
        assert(digits_value(t4) == t4[0] + 0x1_0000_0000 * digits_value(t5));
        assert(digits_value(t3) == t3[0] + 0x1_0000_0000 * digits_value(t4));
        assert(digits_value(t2) == t2[0] + 0x1_0000_0000 * digits_value(t3));
        assert(digits_value(t1) == t1[0] + 0x1_0000_0000 * digits_value(t2));
        assert(digits_value(d) == d[0] + 0x1_0000_0000 * digits_value(t1));
        assert(digits_value(d) == r_inv());
    }
    FieldElement::new(Sign::Plus, digits)
}

/// Whether the codec can serve a field of the given prime, with `limbs_32`
/// digits to an element, in the region that `memory` names: the handle
/// belongs to the store, the region holds the cursor, the prime lies above
/// the short range, and an element's extent fits a 32-bit offset.
pub open spec fn serves(
    store: Arc<RwLock<Store>>,
    memory: Memory,
    limbs_32: usize,
    prime: int,
) -> bool {
    &&& region_in_store(store, memory)
    &&& region_bytes(memory).len() >= 4
    &&& prime > short_max()
    &&& 4 * limbs_32 + 8 <= u32::MAX
}

/// A view over the linear memory of a module instance, with the prime of the
/// field and the number of 32-bit digits of one element.
#[derive(Debug)]
pub struct SafeMemory {
    store: Arc<RwLock<Store>>,
    memory: Memory,
    prime: FieldElement,
    short_max: FieldElement,
    short_min: FieldElement,
    r_inv: FieldElement,
    limbs_32: usize,
}

impl SafeMemory {
    /// The bytes of the region.
    pub closed spec fn bytes(&self) -> Seq<u8> {
        region_bytes(self.memory)
    }

    /// The number of 32-bit digits of one element.
    pub closed spec fn limbs(&self) -> nat {
        self.limbs_32 as nat
    }

    /// The prime of the field.
    pub closed spec fn prime_value(&self) -> int {
        self.prime@
    }

    /// The invariant: what `serves` asks, and the constants in place.
    pub closed spec fn wf(&self) -> bool {
        &&& serves(self.store, self.memory, self.limbs_32, self.prime@)
        &&& self.prime.wf()
        &&& self.short_max.wf()
        &&& self.short_max@ == short_max()
        &&& self.short_min.wf()
        &&& self.short_min@ == short_min()
        &&& self.r_inv.wf()
        &&& self.r_inv@ == r_inv()
    }

    /// Whether `other` is a view of the same field: the same prime and the
    /// same number of digits.
    pub open spec fn same_field(&self, other: &SafeMemory) -> bool {
        self.limbs() == other.limbs() && self.prime_value() == other.prime_value()
    }

    /// What the invariant says of the region and the field.
    pub proof fn lemma_wf(&self)
        requires
            self.wf(),
        ensures
            self.bytes().len() >= 4,
            self.prime_value() > short_max(),
            4 * self.limbs() + 8 <= u32::MAX,
    {
    }

    /// A codec over the region that `memory` names in `store`, or
    /// `InvalidConfiguration` where it cannot serve.
    pub fn new(store: Arc<RwLock<Store>>, memory: Memory, limbs_32: usize, prime: FieldElement) -> (r:
        Result<SafeMemory, WitnessError>)
        requires
            prime.wf(),
        ensures
            match r {
                Ok(codec) => {
                    &&& serves(store, memory, limbs_32, prime@)
                    &&& codec.wf()
                    &&& codec.bytes() == region_bytes(memory)
                    &&& codec.limbs() == limbs_32
                    &&& codec.prime_value() == prime@
                },
                Err(e) => e == WitnessError::InvalidConfiguration && !serves(
                    store,
                    memory,
                    limbs_32,
                    prime@,
                ),
            },
    {
        if !region_belongs(&store, &memory) {
            return Err(WitnessError::InvalidConfiguration);
        }
        if region_size(&store, &memory) < 4 {
            return Err(WitnessError::InvalidConfiguration);
        }
        let above_short = match prime.to_i64() {
            Some(p) => p > 0x8000_0000,
            None => !prime.is_negative(),
        };
        if !above_short {
            return Err(WitnessError::InvalidConfiguration);
        }
        if limbs_32 > 0x3fff_fffd {
            return Err(WitnessError::InvalidConfiguration);
        }
        let short_max = FieldElement::from_u32(0x8000_0000);
        let short_min = FieldElement::from_i64(-0x8000_0000);
        let r_inv = montgomery_inverse();
        Ok(SafeMemory { store, memory, prime, short_max, short_min, r_inv, limbs_32 })
    }

    /// The prime of the field.
    pub fn prime(&self) -> (r: &FieldElement)
        requires
            self.wf(),
        ensures
            r.wf(),
            r@ == self.prime_value(),
    {
        &self.prime
    }

    /// The upper boundary of the short range.
    pub fn short_max(&self) -> (r: &FieldElement)
        requires
            self.wf(),
        ensures
            r.wf(),
            r@ == short_max(),
    {
        &self.short_max
    }

    /// The lower boundary of the short range.
    pub fn short_min(&self) -> (r: &FieldElement)
        requires
            self.wf(),
        ensures
            r.wf(),
            r@ == short_min(),
    {
        &self.short_min
    }

    /// The number of 32-bit digits of one element.
    pub fn limbs_32(&self) -> (r: usize)
        ensures
            r == self.limbs(),
    {
        self.limbs_32
    }

    /// The number of bytes of the region.
    pub fn data_size(&self) -> (r: usize)
        requires
            self.wf(),
        ensures
            r == self.bytes().len(),
    {
        region_size(&self.store, &self.memory)
    }

    /// The next free position: the cursor.
    pub fn free_pos(&self) -> (r: u32)
        requires
            self.wf(),
        ensures
            r == cursor(self.bytes()),
    {
        self.read_u32(0)
    }

    /// Sets the next free position.
    pub fn set_free_pos(&mut self, ptr: u32)
        requires
            old(self).wf(),
        ensures
            final(self).wf(),
            final(self).same_field(old(self)),
            final(self).bytes() == splice(old(self).bytes(), 0, le_bytes(ptr as nat, 4)),
    {
        self.write_u32(0, ptr);
    }

    /// Reserves eight bytes for a word and returns where they start.
    pub fn alloc_u32(&mut self) -> (r: u32)
        requires
            old(self).wf(),
            cursor(old(self).bytes()) + 8 <= u32::MAX,
        ensures
            final(self).wf(),
            final(self).same_field(old(self)),
            r == cursor(old(self).bytes()),
            final(self).bytes() == after_alloc(old(self).bytes(), 8),
    {
        let p = self.free_pos();
        self.set_free_pos(p + 8);
        p
    }

    /// Writes a word at `ptr`, least significant byte first.
    pub fn write_u32(&mut self, ptr: usize, num: u32)
        requires
            old(self).wf(),
            ptr + 4 <= old(self).bytes().len(),
        ensures
            final(self).wf(),
            final(self).same_field(old(self)),
            final(self).bytes() == splice(old(self).bytes(), ptr as int, le_bytes(num as nat, 4)),
    {
        let data = word_bytes(num);
        proof {
            lemma_le_bytes_len(num as nat, 4);
        }
        let _ = region_write(&self.store, &mut self.memory, ptr, &data);
    }

    /// Reads the word at `ptr`, least significant byte first.
    pub fn read_u32(&self, ptr: usize) -> (r: u32)
        requires
            self.wf(),
            ptr + 4 <= self.bytes().len(),
        ensures
            r == word_at(self.bytes(), ptr as int),
    {
        match region_read(&self.store, &self.memory, ptr, 4) {
            Ok(data) => {
                proof {
                    assert(data@.subrange(0, 4) =~= data@);
                }
                bytes_word(&data)
            },
            Err(_) => 0,
        }
    }

    /// Reserves the bytes of one long element and returns where they start.
    pub fn alloc_fr(&mut self) -> (r: u32)
        requires
            old(self).wf(),
            cursor(old(self).bytes()) + 4 * old(self).limbs() + 8 <= u32::MAX,
        ensures
            final(self).wf(),
            final(self).same_field(old(self)),
            r == cursor(old(self).bytes()),
            final(self).bytes() == after_alloc(old(self).bytes(), 4 * old(self).limbs() + 8),
    {
        let p = self.free_pos();
        let step: u32 = (self.limbs_32 * 4 + 8) as u32;
        self.set_free_pos(p + step);
        p
    }
    /// Writes a field element at `ptr`, in the form that its magnitude
    /// selects. On an error nothing is written.
    pub fn write_fr(&mut self, ptr: usize, fr: &FieldElement) -> (r: Result<(), WitnessError>)
        requires
            old(self).wf(),
            fr.wf(),
        ensures
            final(self).wf(),
            final(self).same_field(old(self)),
            match r {
                Ok(_) => {
                    &&& encodable(fr@, old(self).limbs())
                    &&& ptr + encoding_len(fr@, old(self).limbs()) <= old(self).bytes().len()
                    &&& final(self).bytes() == splice(
                        old(self).bytes(),
                        ptr as int,
                        encoding(fr@, old(self).limbs()),
                    )
                },
                Err(e) => {
                    &&& final(self).bytes() == old(self).bytes()
                    &&& if encodable(fr@, old(self).limbs()) {
                        e == WitnessError::MemoryBoundsFailure && ptr + encoding_len(
                            fr@,
                            old(self).limbs(),
                        ) > old(self).bytes().len()
                    } else {
                        e == WitnessError::EncodingLimitation
                    }
                },
            },
    {
        let data = match encode(fr, self.limbs_32) {
            Ok(data) => data,
            Err(e) => {
                return Err(e);
            },
        };
        proof {
            lemma_encoding_len(fr@, self.limbs_32 as nat);
        }
        let size = region_size(&self.store, &self.memory);
        if ptr > size || size - ptr < data.len() {
            return Err(WitnessError::MemoryBoundsFailure);
        }
        match region_write(&self.store, &mut self.memory, ptr, &data) {
            Ok(_) => Ok(()),
            Err(_) => Err(WitnessError::MemoryBoundsFailure),
        }
    }

    /// Reads the field element at `ptr`, as the tag bits say it lies there.
    pub fn read_fr(&self, ptr: usize) -> (r: Result<FieldElement, WitnessError>)
        requires
            self.wf(),
        ensures
            match r {
                Ok(fr) => {
                    &&& readable_at(self.bytes(), ptr as int, self.limbs())
                    &&& fr.wf()
                    &&& fr@ == decoded(self.bytes(), ptr as int, self.limbs(), self.prime_value())
                },
                Err(e) => e == WitnessError::MemoryBoundsFailure && !readable_at(
                    self.bytes(),
                    ptr as int,
                    self.limbs(),
                ),
            },
    {
        let size = region_size(&self.store, &self.memory);
        if ptr > size || size - ptr < 8 {
            return Err(WitnessError::MemoryBoundsFailure);
        }
        let head = match region_read(&self.store, &self.memory, ptr, 8) {
            Ok(head) => head,
            Err(_) => {
                return Err(WitnessError::MemoryBoundsFailure);
            },
        };
        let tag: u8 = head[7];
        assert(tag == self.bytes()[ptr + 7]);
        assert(head[3] == self.bytes()[ptr + 3]);
        if tag & 0x80 != 0 {
            let span: usize = 4 * self.limbs_32;
            if size - ptr - 8 < span {
                return Err(WitnessError::MemoryBoundsFailure);
            }
            let digits = match region_read(&self.store, &self.memory, ptr + 8, span) {
                Ok(digits) => digits,
                Err(_) => {
                    return Err(WitnessError::MemoryBoundsFailure);
                },
            };
            let stored = FieldElement::from_le_bytes(&digits);
            if tag & 0x40 != 0 {
                Ok(stored.times_modulo(&self.r_inv, &self.prime))
            } else {
                Ok(stored)
            }
        } else {
            let word = bytes_word(&head);
            proof {
                assert(head@.subrange(0, 4) =~= self.bytes().subrange(ptr as int, ptr + 4));
            }
            if head[3] & 0x40 != 0 {
                Ok(FieldElement::from_i64(word as i64 - 0x1_0000_0000))
            } else {
                Ok(FieldElement::from_u32(word))
            }
        }
    }

    /// Reads `limbs_32 * 32` bytes at `ptr` as one unsigned integer, least
    /// significant byte first.
    pub fn read_big(&self, ptr: usize, limbs_32: usize) -> (r: Result<FieldElement, WitnessError>)
        requires
            self.wf(),
        ensures
            match r {
                Ok(fr) => {
                    &&& ptr + limbs_32 * 32 <= self.bytes().len()
                    &&& fr.wf()
                    &&& fr@ == le_value(
                        self.bytes().subrange(ptr as int, ptr + limbs_32 * 32),
                    )
                },
                Err(e) => e == WitnessError::MemoryBoundsFailure && ptr + limbs_32 * 32
                    > self.bytes().len(),
            },
    {
        let size = region_size(&self.store, &self.memory);
        if ptr > size || limbs_32 > (size - ptr) / 32 {
            return Err(WitnessError::MemoryBoundsFailure);
        }
        let span: usize = limbs_32 * 32;
        match region_read(&self.store, &self.memory, ptr, span) {
            Ok(data) => Ok(FieldElement::from_le_bytes(&data)),
            Err(_) => Err(WitnessError::MemoryBoundsFailure),
        }
    }
}

} // verus!

//! How a field element lies in linear memory: the three forms, the tag bits
//! that tell them apart, and the allocation cursor. Everything here is about
//! byte sequences and integers; the memory codec's contracts are stated in
//! these terms.

use vstd::prelude::*;
use crate::witness::radix::byte_capacity;
use crate::witness::radix::le_bytes;
use crate::witness::radix::le_value;
use crate::witness::radix::lemma_byte_capacity_small;
use crate::witness::radix::lemma_le_bytes_len;
use crate::witness::radix::lemma_le_bytes_word;
use crate::witness::radix::lemma_le_value_of_bytes;

verus! {

/// The short forms hold the values strictly between `short_min()` and
/// `short_max()`.
pub open spec fn short_max() -> int {
    0x8000_0000
}

/// The prime less `short_max()`, as the signed number that stands for it:
/// `-short_max()`.
pub open spec fn short_min() -> int {
    -0x8000_0000
}

/// The tag word of a long element.
pub open spec fn long_tag() -> nat {
    0x8000_0000
}

/// The factor that takes a stored Montgomery value to the value it stands
/// for: the inverse of 2^256 modulo the scalar field prime of BN254.
pub open spec fn r_inv() -> int {
    9915499612839321149637521777990102151350674507940716049588462388200839649614int
}

/// The form in which a value is written.
#[derive(Clone, Copy, Debug, PartialEq, Eq, Structural)]
pub enum Form {
    ShortPositive,
    ShortNegative,
    Long,
}

/// The form that the magnitude of `value` selects.
pub open spec fn form_of(value: int) -> Form {
    if short_min() < value < short_max() {
        if value >= 0 {
            Form::ShortPositive
        } else {
            Form::ShortNegative
        }
    } else {
        Form::Long
    }
}

/// The word that stands for a short negative value.
pub open spec fn short_negative_word(value: int) -> int {
    ((value - short_min()) - short_max()) + 0x1_0000_0000
}

/// Whether `value` can be written with `limbs` digits of long storage: the
/// short forms hold their whole range; the long form holds what is neither
/// negative nor wider than its digits.
pub open spec fn encodable(value: int, limbs: nat) -> bool {
    form_of(value) == Form::Long ==> 0 <= value < byte_capacity(4 * limbs)
}

/// The bytes that stand for `value`: the value word and the tag word, and for
/// the long form `limbs` digits after them.
pub open spec fn encoding(value: int, limbs: nat) -> Seq<u8> {
    match form_of(value) {
        Form::ShortPositive => le_bytes(value as nat, 4) + le_bytes(0, 4),
        Form::ShortNegative => le_bytes(short_negative_word(value) as nat, 4) + le_bytes(0, 4),
        Form::Long => le_bytes(0, 4) + le_bytes(long_tag(), 4) + le_bytes(
            value as nat,
            4 * limbs,
        ),
    }
}

/// The number of bytes of `encoding(value, limbs)`.
pub open spec fn encoding_len(value: int, limbs: nat) -> nat {
    if form_of(value) == Form::Long {
        8 + 4 * limbs
    } else {
        8
    }
}

/// `bytes` with `data` written over it from `ptr` on.
pub open spec fn splice(bytes: Seq<u8>, ptr: int, data: Seq<u8>) -> Seq<u8> {
    bytes.subrange(0, ptr) + data + bytes.subrange(ptr + data.len(), bytes.len() as int)
}

/// The 32-bit word at `ptr`, least significant byte first.
pub open spec fn word_at(bytes: Seq<u8>, ptr: int) -> nat {
    le_value(bytes.subrange(ptr, ptr + 4))
}

/// The allocation cursor: the word at offset 0.
pub open spec fn cursor(bytes: Seq<u8>) -> nat {
    word_at(bytes, 0)
}

/// Whether the tag bits at `ptr` mark a long element: bit `0x80` of the byte
/// at `ptr + 7`.
pub open spec fn is_long_at(bytes: Seq<u8>, ptr: int) -> bool {
    bytes[ptr + 7] & 0x80 != 0
}

/// Whether the tag bits at `ptr` mark a Montgomery value: bit `0x40` of the
/// byte at `ptr + 7`.
pub open spec fn is_montgomery_at(bytes: Seq<u8>, ptr: int) -> bool {
    bytes[ptr + 7] & 0x40 != 0
}

/// Whether the value word at `ptr` is read as negative: bit `0x40` of the
/// byte at `ptr + 3`.
pub open spec fn is_negative_at(bytes: Seq<u8>, ptr: int) -> bool {
    bytes[ptr + 3] & 0x40 != 0
}

/// The number that the `limbs` digits of long storage at `ptr + 8` spell.
pub open spec fn stored_long(bytes: Seq<u8>, ptr: int, limbs: nat) -> nat {
    le_value(bytes.subrange(ptr + 8, ptr + 8 + 4 * limbs))
}

/// The number of bytes that reading the element at `ptr` looks at.
pub open spec fn extent_at(bytes: Seq<u8>, ptr: int, limbs: nat) -> nat {
    if is_long_at(bytes, ptr) {
        8 + 4 * limbs
    } else {
        8
    }
}

/// Whether the element at `ptr` lies inside `bytes`: its two words, and for
/// the long form its digits.
pub open spec fn readable_at(bytes: Seq<u8>, ptr: int, limbs: nat) -> bool {
    ptr + 8 <= bytes.len() && ptr + extent_at(bytes, ptr, limbs) <= bytes.len()
}

/// The value of the element at `ptr`, for a field of the given prime.
pub open spec fn decoded(bytes: Seq<u8>, ptr: int, limbs: nat, prime: int) -> int {
    if is_long_at(bytes, ptr) {
        if is_montgomery_at(bytes, ptr) {
            (stored_long(bytes, ptr, limbs) * r_inv()) % prime
        } else {
            stored_long(bytes, ptr, limbs) as int
        }
    } else if is_negative_at(bytes, ptr) {
        word_at(bytes, ptr) - 0x1_0000_0000
    } else {
        word_at(bytes, ptr) as int
    }
}

/// `bytes` after one allocation of `step` bytes: the cursor moved up.
pub open spec fn after_alloc(bytes: Seq<u8>, step: nat) -> Seq<u8> {
    splice(bytes, 0, le_bytes(cursor(bytes) + step, 4))
}

/// `bytes` after `count` allocations of `step` bytes each.
pub open spec fn after_allocs(bytes: Seq<u8>, step: nat, count: nat) -> Seq<u8>
    decreases count,
{
    if count == 0 {
        bytes
    } else {
        after_alloc(after_allocs(bytes, step, (count - 1) as nat), step)
    }
}

/// What a write leaves: the length, the bytes written, and all the others.
pub proof fn lemma_splice(bytes: Seq<u8>, ptr: int, data: Seq<u8>)
    requires
        0 <= ptr,
        ptr + data.len() <= bytes.len(),
    ensures
        splice(bytes, ptr, data).len() == bytes.len(),
        splice(bytes, ptr, data).subrange(ptr, ptr + data.len()) == data,
        forall|i: int| 0 <= i < data.len() ==> #[trigger] splice(bytes, ptr, data)[ptr + i] == data[i],
        forall|i: int|
            0 <= i < bytes.len() && !(ptr <= i < ptr + data.len()) ==> #[trigger] splice(
                bytes,
                ptr,
                data,
            )[i] == bytes[i],
{
    assert(splice(bytes, ptr, data).subrange(ptr, ptr + data.len()) =~= data);
}

/// A part of what was written reads back as that part.
pub proof fn lemma_splice_part(bytes: Seq<u8>, ptr: int, data: Seq<u8>, from: int, to: int)
    requires
        0 <= ptr,
        ptr + data.len() <= bytes.len(),
        0 <= from <= to <= data.len(),
    ensures
        splice(bytes, ptr, data).subrange(ptr + from, ptr + to) == data.subrange(from, to),
{
    assert(splice(bytes, ptr, data).subrange(ptr + from, ptr + to) =~= data.subrange(from, to));
}

/// Reading a word where it was written gives it back.
pub proof fn lemma_word_read_after_write(bytes: Seq<u8>, ptr: int, word: u32)
    requires
        0 <= ptr,
        ptr + 4 <= bytes.len(),
    ensures
        word_at(splice(bytes, ptr, le_bytes(word as nat, 4)), ptr) == word,
{
    lemma_le_bytes_len(word as nat, 4);
    lemma_splice(bytes, ptr, le_bytes(word as nat, 4));
    lemma_byte_capacity_small();
    lemma_le_value_of_bytes(word as nat, 4);
}

/// After `count` allocations the cursor stands `count * step` above where it
/// stood, as long as that fits a 32-bit word.
pub proof fn lemma_cursor_after_allocs(bytes: Seq<u8>, step: nat, count: nat)
    requires
        4 <= bytes.len(),
        cursor(bytes) + count * step <= u32::MAX,
    ensures
        after_allocs(bytes, step, count).len() == bytes.len(),
        cursor(after_allocs(bytes, step, count)) == cursor(bytes) + count * step,
    decreases count,
{
    if count > 0 {
        let before = after_allocs(bytes, step, (count - 1) as nat);
        assert((count - 1) * step + step == count * step) by (nonlinear_arith);
        assert((count - 1) * step >= 0) by (nonlinear_arith)
            requires
                count >= 1,
                step >= 0,
        ;
        lemma_cursor_after_allocs(bytes, step, (count - 1) as nat);
        assert(cursor(before) + step == cursor(bytes) + count * step);
        let moved = (cursor(before) + step) as u32;
        assert(moved as nat == cursor(before) + step);
        lemma_le_bytes_len(moved as nat, 4);
        lemma_splice(before, 0, le_bytes(moved as nat, 4));
        lemma_word_read_after_write(before, 0, moved);
        assert(after_allocs(bytes, step, count) == splice(before, 0, le_bytes(moved as nat, 4)));
    } else {
        assert(count * step == 0) by (nonlinear_arith)
            requires
                count == 0,
        ;
    }
}

/// From a region whose cursor is zero, `count` allocations of a word leave the
/// cursor at `8 * count`, and `count` allocations of an element of `limbs`
/// digits at `(4 * limbs + 8) * count`: `16 * count` for two digits.
pub proof fn lemma_cursor_from_empty(bytes: Seq<u8>, limbs: nat, count: nat)
    requires
        4 <= bytes.len(),
        cursor(bytes) == 0,
    ensures
        8 * count <= u32::MAX ==> cursor(after_allocs(bytes, 8, count)) == 8 * count,
        (4 * limbs + 8) * count <= u32::MAX ==> cursor(
            after_allocs(bytes, 4 * limbs + 8, count),
        ) == (4 * limbs + 8) * count,
        limbs == 2 && 16 * count <= u32::MAX ==> cursor(after_allocs(bytes, 16, count)) == 16
            * count,
{
    if 8 * count <= u32::MAX {
        lemma_cursor_after_allocs(bytes, 8, count);
    }
    if (4 * limbs + 8) * count <= u32::MAX {
        assert(count * (4 * limbs + 8) == (4 * limbs + 8) * count) by (nonlinear_arith);
        lemma_cursor_after_allocs(bytes, 4 * limbs + 8, count);
    }
    if limbs == 2 && 16 * count <= u32::MAX {
        lemma_cursor_after_allocs(bytes, 16, count);
    }
}

/// The tag bits as arithmetic on the byte.
pub proof fn lemma_tag_bits(byte: u8)
    ensures
        (byte & 0x80 != 0) == (byte >= 0x80),
        (byte & 0x40 != 0) == ((byte / 0x40) % 2 == 1),
{
    assert((byte & 0x80 != 0) == (byte >= 0x80)) by (bit_vector);
    assert((byte & 0x40 != 0) == ((byte / 0x40) % 2 == 1)) by (bit_vector);
}

/// The length of an encoding.
pub proof fn lemma_encoding_len(value: int, limbs: nat)
    ensures
        encoding(value, limbs).len() == encoding_len(value, limbs),
{
    lemma_le_bytes_len(0, 4);
    lemma_le_bytes_len(long_tag(), 4);
    lemma_le_bytes_len(value as nat, 4);
    lemma_le_bytes_len(short_negative_word(value) as nat, 4);
    lemma_le_bytes_len(value as nat, 4 * limbs);
}

/// The boundaries of the short range are themselves written in the long
/// form, and their inner neighbours in the short forms.
pub proof fn lemma_boundaries_select_long()
    ensures
        form_of(short_max()) == Form::Long,
        form_of(short_min()) == Form::Long,
        form_of(short_max() - 1) == Form::ShortPositive,
        form_of(short_min() + 1) == Form::ShortNegative,
{
}

/// What reading gives where a value of the short range was written. Bit
/// `0x40` of the value word's top byte decides the sign on reading, so the
/// value comes back as written from `-2^30` up to `2^30`, and `2^32` off
/// outside that.
pub proof fn lemma_short_decoding(bytes: Seq<u8>, ptr: int, value: int, limbs: nat, prime: int)
    requires
        0 <= ptr,
        ptr + 8 <= bytes.len(),
        short_min() < value < short_max(),
    ensures
        !is_long_at(splice(bytes, ptr, encoding(value, limbs)), ptr),
        readable_at(splice(bytes, ptr, encoding(value, limbs)), ptr, limbs),
        decoded(splice(bytes, ptr, encoding(value, limbs)), ptr, limbs, prime) == (if value
            >= 0x4000_0000 {
            value - 0x1_0000_0000
        } else if value < -0x4000_0000 {
            value + 0x1_0000_0000
        } else {
            value
        }),
{
    let word: nat = if value >= 0 {
        value as nat
    } else {
        short_negative_word(value) as nat
    };
    let low = le_bytes(word, 4);
    let high = le_bytes(0, 4);
    let data = encoding(value, limbs);
    assert(data == low + high);
    lemma_le_bytes_len(word, 4);
    lemma_le_bytes_len(0, 4);
    lemma_le_bytes_word(word);
    lemma_le_bytes_word(0);
    lemma_byte_capacity_small();
    lemma_le_value_of_bytes(word, 4);
    let after = splice(bytes, ptr, data);
    lemma_splice(bytes, ptr, data);
    lemma_splice_part(bytes, ptr, data, 0, 4);
    assert(data.subrange(0, 4) =~= low);
    assert(word_at(after, ptr) == word);
    assert(after[ptr + 7] == data[7]);
    assert(after[ptr + 3] == data[3]);
    assert(data[7] == 0);
    let top = data[3];
    assert(top == ((word / 0x100_0000) % 256) as u8);
    lemma_tag_bits(top);
    lemma_tag_bits(0);
}

/// A value from `-2^30` up to `2^30` reads back exactly as it was written.
pub proof fn lemma_short_round_trip(bytes: Seq<u8>, ptr: int, value: int, limbs: nat, prime: int)
    requires
        0 <= ptr,
        ptr + 8 <= bytes.len(),
        -0x4000_0000 <= value < 0x4000_0000,
    ensures
        readable_at(splice(bytes, ptr, encoding(value, limbs)), ptr, limbs),
        decoded(splice(bytes, ptr, encoding(value, limbs)), ptr, limbs, prime) == value,
{
    lemma_short_decoding(bytes, ptr, value, limbs, prime);
}

/// A value at or above `short_max()` that `limbs` digits hold reads back
/// exactly as it was written.
pub proof fn lemma_long_round_trip(bytes: Seq<u8>, ptr: int, value: int, limbs: nat, prime: int)
    requires
        0 <= ptr,
        ptr + 8 + 4 * limbs <= bytes.len(),
        short_max() <= value < byte_capacity(4 * limbs),
    ensures
        is_long_at(splice(bytes, ptr, encoding(value, limbs)), ptr),
        !is_montgomery_at(splice(bytes, ptr, encoding(value, limbs)), ptr),
        readable_at(splice(bytes, ptr, encoding(value, limbs)), ptr, limbs),
        decoded(splice(bytes, ptr, encoding(value, limbs)), ptr, limbs, prime) == value,
{
    let zero = le_bytes(0, 4);
    let tag = le_bytes(long_tag(), 4);
    let digits = le_bytes(value as nat, 4 * limbs);
    let data = encoding(value, limbs);
    assert(data == zero + tag + digits);
    lemma_le_bytes_len(0, 4);
    lemma_le_bytes_len(long_tag(), 4);
    lemma_le_bytes_len(value as nat, 4 * limbs);
    lemma_le_bytes_word(long_tag());
    lemma_le_value_of_bytes(value as nat, 4 * limbs);
    let after = splice(bytes, ptr, data);
    lemma_splice(bytes, ptr, data);
    lemma_splice_part(bytes, ptr, data, 8, (8 + 4 * limbs) as int);
    assert(data.subrange(8, (8 + 4 * limbs) as int) =~= digits);
    assert(after[ptr + 7] == data[7]);
    assert(data[7] == tag[3]);
    assert(tag[3] == 0x80);
    lemma_tag_bits(0x80);
}

/// Where both tag bits are set, reading gives the stored number times
/// `r_inv()`, reduced modulo the prime.
pub proof fn lemma_montgomery_read(bytes: Seq<u8>, ptr: int, limbs: nat, prime: int)
    requires
        is_long_at(bytes, ptr),
        is_montgomery_at(bytes, ptr),
        prime > 0,
    ensures
        decoded(bytes, ptr, limbs, prime) == (stored_long(bytes, ptr, limbs) * r_inv()) % prime,
        0 <= decoded(bytes, ptr, limbs, prime) < prime,
{
}

} // verus!

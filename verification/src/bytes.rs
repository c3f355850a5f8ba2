//! Words as the bytes that are handed to the graphics device.

use vstd::prelude::*;

verus! {

/// Byte `k` of a word, counted from the lowest.
pub open spec fn word_byte(word: u32, k: int) -> u8 {
    if k == 0 {
        (word % 0x100) as u8
    } else if k == 1 {
        (word / 0x100 % 0x100) as u8
    } else if k == 2 {
        (word / 0x1_0000 % 0x100) as u8
    } else {
        (word / 0x100_0000) as u8
    }
}

/// Whether `bytes` holds `words` with the lowest byte first.
pub open spec fn little_endian(words: Seq<u32>, bytes: Seq<u8>) -> bool {
    forall|i: int| 0 <= i < bytes.len() ==> #[trigger] bytes[i] == word_byte(words[i / 4], i % 4)
}

/// Whether `bytes` holds `words` with the highest byte first.
pub open spec fn big_endian(words: Seq<u32>, bytes: Seq<u8>) -> bool {
    forall|i: int|
        0 <= i < bytes.len() ==> #[trigger] bytes[i] == word_byte(words[i / 4], 3 - i % 4)
}

/// Whether `bytes` is how a machine holds `words` in memory.
pub open spec fn in_memory(words: Seq<u32>, bytes: Seq<u8>) -> bool {
    bytes.len() == 4 * words.len() && (little_endian(words, bytes) || big_endian(words, bytes))
}

/// `bytemuck::cast_slice` from `u32` to `u8`, which reads the memory of a
/// slice as bytes: four for each word, in the byte order of the machine,
/// which is not known here.
#[verifier::external_body]
pub(crate) fn word_bytes(words: &Vec<u32>) -> (r: Vec<u8>)
    ensures
        in_memory(words@, r@),
{
    bytemuck::cast_slice::<u32, u8>(words).to_vec()
}

/// A signed word as the unsigned word with the same bits.
pub open spec fn unsigned(word: i32) -> u32 {
    if word < 0 {
        (word + 0x1_0000_0000) as u32
    } else {
        word as u32
    }
}

/// The unsigned word with the same bits.
pub fn to_unsigned(word: i32) -> (r: u32)
    ensures
        r == unsigned(word),
{
    let r: u32 = word as u32;
    proof {
        assert((word as u32) as int == (if word >= 0 {
            word as int
        } else {
            word + 0x1_0000_0000
        })) by (bit_vector);
    }
    r
}

/// A signed word with the bits of an unsigned one.
pub open spec fn signed(word: u32) -> i32 {
    if word >= 0x8000_0000 {
        (word - 0x1_0000_0000) as i32
    } else {
        word as i32
    }
}

/// The signed word with the same bits.
pub fn to_signed(word: u32) -> (r: i32)
    ensures
        r == signed(word),
{
    let r: i32 = word as i32;
    proof {
        assert((word as i32) as int == (if word < 0x8000_0000u32 {
            word as int
        } else {
            word - 0x1_0000_0000
        })) by (bit_vector);
    }
    r
}

} // verus!

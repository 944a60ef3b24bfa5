use crate::flood::two_pow;
use vstd::prelude::*;

verus! {

/// Size of the step uniform block, in 32-bit words: the step in the first
/// word, padding after it.
pub const STEP_UNIFORM_WORDS: usize = 8;

/// The IEEE-754 single-precision bit pattern of `2^e`: sign 0, biased
/// exponent `127 + e`, mantissa 0.
pub open spec fn f32_bits_of_two_pow(e: nat) -> int {
    (127 + e as int) * 0x80_0000
}

/// Byte `j` (0 the least significant) of the 32-bit word `w`.
pub open spec fn byte_of(w: u32, j: int) -> u8 {
    ((w as int / two_pow((8 * j) as nat) as int) % 256) as u8
}

/// `bytes` are the words, four bytes each, least significant first.
pub open spec fn little_endian_bytes(words: Seq<u32>, bytes: Seq<u8>) -> bool {
    &&& bytes.len() == 4 * words.len()
    &&& forall|i: int| 0 <= i < bytes.len() ==> #[trigger] bytes[i] == byte_of(words[i / 4], i % 4)
}

/// `bytes` are the words, four bytes each, most significant first.
pub open spec fn big_endian_bytes(words: Seq<u32>, bytes: Seq<u8>) -> bool {
    &&& bytes.len() == 4 * words.len()
    &&& forall|i: int| 0 <= i < bytes.len() ==> #[trigger] bytes[i] == byte_of(words[i / 4], 3 - i % 4)
}

/// The words of the step uniform for a round of step `2^e`.
pub open spec fn step_uniform_words(e: nat) -> Seq<u32> {
    seq![f32_bits_of_two_pow(e) as u32, 0u32, 0u32, 0u32, 0u32, 0u32, 0u32, 0u32]
}

/// Relies on bytemuck::cast_slice from `u32` to `u8`: the words' bytes as
/// they lie in memory, in the machine's byte order. That cast cannot fail:
/// `u8` needs no alignment and divides every length.
#[verifier::external_body]
fn words_as_bytes(words: &[u32]) -> (r: Vec<u8>)
    ensures
        little_endian_bytes(words@, r@) || big_endian_bytes(words@, r@),
{
    bytemuck::cast_slice::<u32, u8>(words).to_vec()
}

/// The bytes of the uniform block that a propagation round of step
/// `2^step_log2` reads: the step as a 32-bit float, then seven words of
/// padding, in the machine's byte order.
pub fn step_uniform(step_log2: u32) -> (r: Vec<u8>)
    requires
        step_log2 < 32,
    ensures
        r@.len() == 4 * STEP_UNIFORM_WORDS,
        little_endian_bytes(step_uniform_words(step_log2 as nat), r@) || big_endian_bytes(
            step_uniform_words(step_log2 as nat),
            r@,
        ),
{
    let bits: u32 = (127 + step_log2) * 0x80_0000;
    let mut words: Vec<u32> = Vec::with_capacity(STEP_UNIFORM_WORDS);
    words.push(bits);
    let mut i: usize = 1;
    while i < STEP_UNIFORM_WORDS
        invariant
            1 <= i <= STEP_UNIFORM_WORDS,
            words@ == step_uniform_words(step_log2 as nat).take(i as int),
        decreases STEP_UNIFORM_WORDS - i,
    {
        words.push(0);
        i = i + 1;
        proof {
            assert(words@ =~= step_uniform_words(step_log2 as nat).take(i as int));
        }
    }
    proof {
        assert(words@ =~= step_uniform_words(step_log2 as nat));
    }
    words_as_bytes(words.as_slice())
}

} // verus!

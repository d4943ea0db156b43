//! Decoding stored tensor data into element bit patterns.
use vstd::prelude::*;

use crate::model::gguf::{le2, le4};
use crate::quantization::blocks::{f16_bits_to_f32_bits, spec_f16_to_f32_bits};

verus! {

/// The little-endian `u32` words of `bytes` (a trailing partial word is
/// ignored): the bit patterns of stored `f32` elements.
pub fn u32_words_le(bytes: &[u8]) -> (r: Vec<u32>)
    ensures
        r@.len() == bytes@.len() / 4,
        forall|i: int| 0 <= i < r@.len() ==> #[trigger] r@[i] == le4(bytes@, 4 * i),
{
    let n = bytes.len() / 4;
    let mut out: Vec<u32> = Vec::new();
    let mut i: usize = 0;
    while i < n
        invariant
            n == bytes@.len() / 4,
            bytes@.len() <= usize::MAX,
            i <= n,
            out@.len() == i,
            forall|k: int| 0 <= k < i ==> #[trigger] out@[k] == le4(bytes@, 4 * k),
        decreases n - i,
    {
        let o = 4 * i;
        let w: u32 = bytes[o] as u32 + bytes[o + 1] as u32 * 256 + bytes[o + 2] as u32 * 65536
            + bytes[o + 3] as u32 * 16777216;
        out.push(w);
        i = i + 1;
    }
    out
}

/// The little-endian `u16` words of `bytes` (a trailing odd byte is
/// ignored): the bit patterns of stored `f16` elements.
pub fn u16_words_le(bytes: &[u8]) -> (r: Vec<u16>)
    ensures
        r@.len() == bytes@.len() / 2,
        forall|i: int| 0 <= i < r@.len() ==> #[trigger] r@[i] == le2(bytes@, 2 * i),
{
    let n = bytes.len() / 2;
    let mut out: Vec<u16> = Vec::new();
    let mut i: usize = 0;
    while i < n
        invariant
            n == bytes@.len() / 2,
            bytes@.len() <= usize::MAX,
            i <= n,
            out@.len() == i,
            forall|k: int| 0 <= k < i ==> #[trigger] out@[k] == le2(bytes@, 2 * k),
        decreases n - i,
    {
        let o = 2 * i;
        let w: u16 = bytes[o] as u16 + bytes[o + 1] as u16 * 256;
        out.push(w);
        i = i + 1;
    }
    out
}

/// The `f32` bit patterns of stored `f16` elements, widened exactly.
pub fn f16_data_to_f32_bits(bytes: &[u8]) -> (r: Vec<u32>)
    ensures
        r@.len() == bytes@.len() / 2,
        forall|i: int|
            0 <= i < r@.len() ==> #[trigger] r@[i] == spec_f16_to_f32_bits(le2(bytes@, 2 * i) as u16),
{
    let halves = u16_words_le(bytes);
    let mut out: Vec<u32> = Vec::new();
    let mut i: usize = 0;
    while i < halves.len()
        invariant
            halves@.len() == bytes@.len() / 2,
            forall|k: int| 0 <= k < halves@.len() ==> #[trigger] halves@[k] == le2(bytes@, 2 * k),
            i <= halves@.len(),
            out@.len() == i,
            forall|k: int|
                0 <= k < i ==> #[trigger] out@[k] == spec_f16_to_f32_bits(le2(bytes@, 2 * k) as u16),
        decreases halves@.len() - i,
    {
        out.push(f16_bits_to_f32_bits(halves[i]));
        i = i + 1;
    }
    out
}

} // verus!

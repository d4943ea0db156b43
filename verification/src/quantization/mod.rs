pub mod blocks;

pub use blocks::{
    f16_bits_to_f32_bits, f32_bits_to_f16_bits, push_q4_0_block, push_q8_0_block, q4_0_block,
    q8_0_block,
};

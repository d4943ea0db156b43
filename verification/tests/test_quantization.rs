use mini_llm::quantization::{
    f16_bits_to_f32_bits, f32_bits_to_f16_bits, push_q4_0_block, push_q8_0_block, q4_0_block,
    q8_0_block,
};

#[test]
fn test_q8_0_block_roundtrip() {
    let q: Vec<i8> = (0..32).map(|i| (i as i8) * 4 - 64).collect();
    let mut raw = Vec::new();
    push_q8_0_block(&mut raw, 0x3c00, &q);
    assert_eq!(raw.len(), 34);
    assert_eq!(&raw[0..2], &[0x00, 0x3c]);
    let (scale, back) = q8_0_block(&raw, 0);
    assert_eq!(scale, 0x3c00);
    assert_eq!(back, q);
}

#[test]
fn test_q4_0_block_roundtrip() {
    let q: Vec<i8> = (0..32).map(|i| ((i % 16) as i8) - 8).collect();
    let mut raw = Vec::new();
    push_q4_0_block(&mut raw, 0x1234, &q);
    assert_eq!(raw.len(), 18);
    // element i in the low nibble, element i + 16 in the high nibble, both offset by 8
    assert_eq!(raw[2], 0x00);
    assert_eq!(raw[3], 0x11);
    let (scale, back) = q4_0_block(&raw, 0);
    assert_eq!(scale, 0x1234);
    assert_eq!(back, q);
}

#[test]
fn test_second_block_is_read() {
    let mut raw = Vec::new();
    push_q8_0_block(&mut raw, 1, &[1i8; 32]);
    push_q8_0_block(&mut raw, 2, &[-3i8; 32]);
    let (scale, q) = q8_0_block(&raw, 1);
    assert_eq!(scale, 2);
    assert_eq!(q, vec![-3i8; 32]);
}

#[test]
fn test_half_precision_bits() {
    assert_eq!(f32::from_bits(f16_bits_to_f32_bits(0x3c00)), 1.0);
    assert_eq!(f32::from_bits(f16_bits_to_f32_bits(0xc000)), -2.0);
    assert_eq!(f32::from_bits(f16_bits_to_f32_bits(0x7c00)), f32::INFINITY);
    // smallest subnormal half: 2^-24
    assert_eq!(f32::from_bits(f16_bits_to_f32_bits(0x0001)), 2.0f32.powi(-24));
    assert_eq!(f32_bits_to_f16_bits(1.0f32.to_bits()), 0x3c00);
    assert_eq!(f32_bits_to_f16_bits((-2.0f32).to_bits()), 0xc000);
    assert_eq!(f32_bits_to_f16_bits(1e-10f32.to_bits()), 0);
    assert_eq!(f32_bits_to_f16_bits(1e10f32.to_bits()), 0x7c00);
}

#[test]
fn test_half_precision_roundtrip_for_normal_values() {
    for h in [0x0400u16, 0x3c00, 0x3555, 0x7bff, 0xc000, 0x8400, 0xfbff] {
        assert_eq!(f32_bits_to_f16_bits(f16_bits_to_f32_bits(h)), h);
    }
    // Subnormals flush to zero on the way back.
    assert_eq!(f32_bits_to_f16_bits(f16_bits_to_f32_bits(0x0001)), 0);
}

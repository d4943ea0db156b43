//! Bit-level parts of the number formats: IEEE-754 half/single precision
//! bit patterns and the byte layout of the Q8_0 and Q4_0 block formats.
use vstd::prelude::*;

verus! {

/// Shift that normalizes a nonzero 10-bit half-precision mantissa: the
/// number of left shifts that bring its highest set bit to bit 10.
pub open spec fn subnormal_shift(mant: u32) -> u32 {
    if mant >= 512 {
        1
    } else if mant >= 256 {
        2
    } else if mant >= 128 {
        3
    } else if mant >= 64 {
        4
    } else if mant >= 32 {
        5
    } else if mant >= 16 {
        6
    } else if mant >= 8 {
        7
    } else if mant >= 4 {
        8
    } else if mant >= 2 {
        9
    } else {
        10
    }
}

/// Bits of the `f32` holding the value of the `f16` with bits `h`: zero
/// keeps its sign; a subnormal is normalized (exponent `113 - shift`);
/// infinities and NaNs keep their mantissa; normal numbers rebias the
/// exponent by `127 - 15`.
pub open spec fn spec_f16_to_f32_bits(h: u16) -> u32 {
    let sign = ((h >> 15u16) & 1) as u32;
    let exp = ((h >> 10u16) & 0x1f) as u32;
    let mant = (h & 0x3ff) as u32;
    if exp == 0 {
        if mant == 0 {
            sign << 31u32
        } else {
            let e = subnormal_shift(mant);
            let m = (mant << e) & 0x3ff;
            (sign << 31u32) | (((113 - e) as u32) << 23u32) | (m << 13u32)
        }
    } else if exp == 31 {
        (sign << 31u32) | (255u32 << 23u32) | (mant << 13u32)
    } else {
        (sign << 31u32) | (((exp + 112) as u32) << 23u32) | (mant << 13u32)
    }
}

proof fn lemma_shift_step(m: u32)
    requires
        m < 0x400,
    ensures
        (m & 0x400) == 0,
        m << 1u32 == m * 2,
{
    assert((m & 0x400) == 0) by (bit_vector)
        requires
            m < 0x400,
    ;
    assert(m << 1u32 == m * 2) by (bit_vector)
        requires
            m < 0x400,
    ;
}

proof fn lemma_shift_done(m: u32)
    requires
        0x400 <= m < 0x800,
    ensures
        (m & 0x400) != 0,
{
    assert((m & 0x400) != 0) by (bit_vector)
        requires
            0x400 <= m < 0x800,
    ;
}

/// `mant << e` as a product, for the shifts used on a 10-bit mantissa.
proof fn lemma_shl_mul(mant: u32, e: u32)
    requires
        mant < 0x400,
        e <= 10,
    ensures
        (mant << e) as int == mant * pow2_small(e),
{
    assert(mant << e == mant * (1u32 << e)) by (bit_vector)
        requires
            mant < 0x400,
            e <= 10,
    ;
    assert((1u32 << e) as int == pow2_small(e)) by (bit_vector)
        requires
            e <= 10,
    ;
}

pub open spec fn pow2_small(e: u32) -> int {
    if e == 0 {
        1
    } else if e == 1 {
        2
    } else if e == 2 {
        4
    } else if e == 3 {
        8
    } else if e == 4 {
        16
    } else if e == 5 {
        32
    } else if e == 6 {
        64
    } else if e == 7 {
        128
    } else if e == 8 {
        256
    } else if e == 9 {
        512
    } else {
        1024
    }
}

/// Converts half-precision bits to the bits of the equal single-precision
/// value (see `spec_f16_to_f32_bits`).
pub fn f16_bits_to_f32_bits(h: u16) -> (r: u32)
    ensures
        r == spec_f16_to_f32_bits(h),
{
    let sign: u32 = ((h >> 15u16) & 1) as u32;
    let exp: u32 = ((h >> 10u16) & 0x1f) as u32;
    let mant: u32 = (h & 0x3ff) as u32;
    proof {
        assert((h & 0x3ff) < 0x400) by (bit_vector);
        assert(((h >> 10u16) & 0x1f) < 32) by (bit_vector);
        assert(((h >> 15u16) & 1) < 2) by (bit_vector);
    }
    if exp == 0 {
        if mant == 0 {
            sign << 31u32
        } else {
            let mut m: u32 = mant;
            let mut e: u32 = 0;
            let ghost s = subnormal_shift(mant);
            proof {
                lemma_shl_mul(mant, 0);
            }
            while (m & 0x400) == 0
                invariant
                    0 < mant < 0x400,
                    s == subnormal_shift(mant),
                    e <= s,
                    m as int == mant * pow2_small(e),
                    (m & 0x400) == 0 ==> e < s,
                    e == s ==> 0x400 <= m < 0x800,
                    e < s ==> m < 0x400,
                decreases s - e,
            {
                proof {
                    lemma_shift_step(m);
                }
                m = m << 1u32;
                e = e + 1;
                proof {
                    lemma_shl_mul(mant, e);
                    if e < s {
                        assert(m < 0x400);
                        lemma_shift_step(m);
                    } else {
                        assert(0x400 <= m < 0x800);
                        lemma_shift_done(m);
                    }
                }
            }
            proof {
                if e < s {
                    lemma_shift_step(m);
                }
                lemma_shl_mul(mant, e);
            }
            m = m & 0x3ff;
            let f_exp: u32 = 113 - e;
            (sign << 31u32) | (f_exp << 23u32) | (m << 13u32)
        }
    } else if exp == 31 {
        (sign << 31u32) | (255u32 << 23u32) | (mant << 13u32)
    } else {
        (sign << 31u32) | ((exp + 112) << 23u32) | (mant << 13u32)
    }
}

/// Bits of the `f16` that the single-precision value with bits `bits` is
/// narrowed to: values below the normal `f16` range become +0, values above
/// it become infinity with the input's sign, others keep sign and exponent
/// and the top 10 mantissa bits (truncated).
pub open spec fn spec_f32_to_f16_bits(bits: u32) -> u16 {
    let sign = (bits >> 16u32) & 0x8000;
    let exp = ((bits >> 23u32) & 0xff) as int - 127 + 15;
    let mant = bits & 0x7f_ffff;
    if exp <= 0 {
        0
    } else if exp >= 31 {
        (sign | 0x7c00) as u16
    } else {
        (sign | ((exp as u32) << 10u32) | (mant >> 13u32)) as u16
    }
}

/// Narrows single-precision bits to half-precision bits (see
/// `spec_f32_to_f16_bits`).
pub fn f32_bits_to_f16_bits(bits: u32) -> (r: u16)
    ensures
        r == spec_f32_to_f16_bits(bits),
{
    let sign: u32 = (bits >> 16u32) & 0x8000;
    let raw_exp: u32 = (bits >> 23u32) & 0xff;
    proof {
        assert((bits >> 23u32) & 0xff <= 0xff) by (bit_vector);
    }
    let exp: i32 = raw_exp as i32 - 127 + 15;
    let mant: u32 = bits & 0x7f_ffff;
    if exp <= 0 {
        0
    } else if exp >= 31 {
        (sign | 0x7c00) as u16
    } else {
        (sign | ((exp as u32) << 10u32) | (mant >> 13u32)) as u16
    }
}

// ============================================================================
// Block formats
// ============================================================================
/// Bytes in one Q8_0 block: an `f16` scale and 32 signed 8-bit values.
pub const Q8_0_BLOCK_BYTES: usize = 34;

/// Bytes in one Q4_0 block: an `f16` scale and 32 packed 4-bit values.
pub const Q4_0_BLOCK_BYTES: usize = 18;

/// Values per block in both formats.
pub const QK: usize = 32;

/// Q8_0 block `b` of `raw`: the scale's bits (little-endian) and the 32
/// quantized values (bytes read as `i8`).
pub open spec fn spec_q8_0_block(raw: Seq<u8>, b: int) -> (u16, Seq<i8>) {
    let o = b * 34;
    (
        (raw[o] + raw[o + 1] * 256) as u16,
        Seq::new(32, |i: int| raw[o + 2 + i] as i8),
    )
}

/// Q4_0 block `b` of `raw`: the scale's bits and 32 values in -8..=7; value
/// `i < 16` is the low nibble of byte `i`, value `i + 16` its high nibble,
/// each minus 8.
pub open spec fn spec_q4_0_block(raw: Seq<u8>, b: int) -> (u16, Seq<i8>) {
    let o = b * 18;
    (
        (raw[o] + raw[o + 1] * 256) as u16,
        Seq::new(
            32,
            |i: int|
                if i < 16 {
                    ((raw[o + 2 + i] & 0x0f) as i8 - 8) as i8
                } else {
                    (((raw[o + 2 + i - 16] >> 4u8) & 0x0f) as i8 - 8) as i8
                },
        ),
    )
}

/// Reads Q8_0 block `b` of `raw`.
pub fn q8_0_block(raw: &[u8], b: usize) -> (r: (u16, Vec<i8>))
    requires
        (b + 1) * 34 <= raw@.len(),
    ensures
        (r.0, r.1@) == spec_q8_0_block(raw@, b as int),
{
    let n = raw.len();
    assert(b * 34 + 34 <= n);
    let o = b * 34;
    let scale: u16 = raw[o] as u16 + raw[o + 1] as u16 * 256;
    let mut q: Vec<i8> = Vec::new();
    let mut i: usize = 0;
    while i < 32
        invariant
            o == b * 34,
            o + 34 <= raw@.len(),
            raw@.len() == n,
            i <= 32,
            q@ == Seq::new(i as nat, |k: int| raw@[o + 2 + k] as i8),
        decreases 32 - i,
    {
        q.push(raw[o + 2 + i] as i8);
        i = i + 1;
        proof {
            assert(q@ =~= Seq::new(i as nat, |k: int| raw@[o + 2 + k] as i8));
        }
    }
    proof {
        assert(q@ =~= spec_q8_0_block(raw@, b as int).1);
    }
    (scale, q)
}

/// Reads Q4_0 block `b` of `raw`.
pub fn q4_0_block(raw: &[u8], b: usize) -> (r: (u16, Vec<i8>))
    requires
        (b + 1) * 18 <= raw@.len(),
    ensures
        (r.0, r.1@) == spec_q4_0_block(raw@, b as int),
{
    let n = raw.len();
    assert(b * 18 + 18 <= n);
    let o = b * 18;
    let scale: u16 = raw[o] as u16 + raw[o + 1] as u16 * 256;
    let mut lo: Vec<i8> = Vec::new();
    let mut hi: Vec<i8> = Vec::new();
    let mut i: usize = 0;
    while i < 16
        invariant
            o == b * 18,
            o + 18 <= raw@.len(),
            raw@.len() == n,
            i <= 16,
            lo@ == Seq::new(i as nat, |k: int| ((raw@[o + 2 + k] & 0x0f) as i8 - 8) as i8),
            hi@ == Seq::new(
                i as nat,
                |k: int| (((raw@[o + 2 + k] >> 4u8) & 0x0f) as i8 - 8) as i8,
            ),
        decreases 16 - i,
    {
        let byte = raw[o + 2 + i];
        proof {
            assert(byte & 0x0f <= 15) by (bit_vector);
            assert((byte >> 4u8) & 0x0f <= 15) by (bit_vector);
        }
        lo.push(((byte & 0x0f) as i8) - 8);
        hi.push((((byte >> 4u8) & 0x0f) as i8) - 8);
        i = i + 1;
        proof {
            assert(lo@ =~= Seq::new(i as nat, |k: int| ((raw@[o + 2 + k] & 0x0f) as i8 - 8) as i8));
            assert(hi@ =~= Seq::new(
                i as nat,
                |k: int| (((raw@[o + 2 + k] >> 4u8) & 0x0f) as i8 - 8) as i8,
            ));
        }
    }
    let ghost lo_s = lo@;
    let mut j: usize = 0;
    while j < 16
        invariant
            j <= 16,
            lo@ == lo_s + hi@.take(j as int),
            hi@.len() == 16,
        decreases 16 - j,
    {
        let v = hi[j];
        lo.push(v);
        j = j + 1;
        proof {
            assert(lo@ =~= lo_s + hi@.take(j as int));
        }
    }
    proof {
        assert(lo@ =~= spec_q4_0_block(raw@, b as int).1);
    }
    (scale, lo)
}

/// The bytes of a Q8_0 block: the scale's bits little-endian, then the 32
/// values as bytes.
pub open spec fn spec_q8_0_bytes(scale: u16, q: Seq<i8>) -> Seq<u8> {
    seq![(scale & 0xff) as u8, (scale >> 8u16) as u8] + Seq::new(32, |i: int| q[i] as u8)
}

/// The bytes of a Q4_0 block: the scale's bits little-endian, then byte `i`
/// holding value `i` (plus 8) in its low nibble and value `i + 16` (plus 8)
/// in its high nibble.
pub open spec fn spec_q4_0_bytes(scale: u16, q: Seq<i8>) -> Seq<u8> {
    seq![(scale & 0xff) as u8, (scale >> 8u16) as u8] + Seq::new(
        16,
        |i: int|
            ((((q[i] + 8) as u8) & 0x0f) | ((((q[i + 16] + 8) as u8) & 0x0f) << 4u8)) as u8,
    )
}

/// Appends a Q8_0 block.
pub fn push_q8_0_block(out: &mut Vec<u8>, scale: u16, q: &[i8])
    requires
        q@.len() == 32,
    ensures
        final(out)@ == old(out)@ + spec_q8_0_bytes(scale, q@),
{
    let ghost start = out@;
    out.push((scale & 0xff) as u8);
    out.push((scale >> 8u16) as u8);
    let ghost head = out@;
    let mut i: usize = 0;
    while i < 32
        invariant
            q@.len() == 32,
            i <= 32,
            out@ == head + Seq::new(i as nat, |k: int| q@[k] as u8),
        decreases 32 - i,
    {
        out.push(q[i] as u8);
        i = i + 1;
        proof {
            assert(out@ =~= head + Seq::new(i as nat, |k: int| q@[k] as u8));
        }
    }
    proof {
        assert(out@ =~= start + spec_q8_0_bytes(scale, q@));
    }
}

/// Appends a Q4_0 block; the values must lie in -8..=7.
pub fn push_q4_0_block(out: &mut Vec<u8>, scale: u16, q: &[i8])
    requires
        q@.len() == 32,
        forall|i: int| 0 <= i < 32 ==> -8 <= #[trigger] q@[i] <= 7,
    ensures
        final(out)@ == old(out)@ + spec_q4_0_bytes(scale, q@),
{
    let ghost start = out@;
    out.push((scale & 0xff) as u8);
    out.push((scale >> 8u16) as u8);
    let ghost head = out@;
    let mut i: usize = 0;
    while i < 16
        invariant
            q@.len() == 32,
            forall|k: int| 0 <= k < 32 ==> -8 <= #[trigger] q@[k] <= 7,
            i <= 16,
            out@ == head + Seq::new(
                i as nat,
                |k: int|
                    ((((q@[k] + 8) as u8) & 0x0f) | ((((q@[k + 16] + 8) as u8) & 0x0f) << 4u8)) as u8,
            ),
        decreases 16 - i,
    {
        let q0: u8 = (q[i] + 8) as u8;
        let q1: u8 = (q[i + 16] + 8) as u8;
        out.push((q0 & 0x0f) | ((q1 & 0x0f) << 4u8));
        i = i + 1;
        proof {
            assert(out@ =~= head + Seq::new(
                i as nat,
                |k: int|
                    ((((q@[k] + 8) as u8) & 0x0f) | ((((q@[k + 16] + 8) as u8) & 0x0f) << 4u8)) as u8,
            ));
        }
    }
    proof {
        assert(out@ =~= start + spec_q4_0_bytes(scale, q@));
    }
}

/// How a stored Q8_0 block is read: the scale's bits are the first two
/// bytes, low byte first, and value `i` is data byte `i` taken as a signed
/// (two's complement) byte.
pub proof fn q8_0_block_layout(raw: Seq<u8>, b: int)
    requires
        0 <= b,
        (b + 1) * 34 <= raw.len(),
    ensures
        spec_q8_0_block(raw, b).0 as int == raw[b * 34] + 256 * raw[b * 34 + 1],
        spec_q8_0_block(raw, b).1.len() == 32,
        forall|i: int|
            0 <= i < 32 ==> #[trigger] spec_q8_0_block(raw, b).1[i] as int == if raw[b * 34 + 2
                + i] < 128 {
                raw[b * 34 + 2 + i] as int
            } else {
                raw[b * 34 + 2 + i] - 256
            },
{
    let o = b * 34;
    assert forall|i: int| 0 <= i < 32 implies #[trigger] spec_q8_0_block(raw, b).1[i] as int
        == if raw[o + 2 + i] < 128 {
        raw[o + 2 + i] as int
    } else {
        raw[o + 2 + i] - 256
    } by {
        let x = raw[o + 2 + i];
        assert((x < 128 ==> x as i8 == x) && (x >= 128 ==> x as i8 == x - 256)) by (bit_vector);
    }
}

/// How a stored Q4_0 block is read: the scale's bits are the first two
/// bytes, low byte first; value `i < 16` is the low four bits of data byte
/// `i` minus 8, and value `i + 16` is its high four bits minus 8.
pub proof fn q4_0_block_layout(raw: Seq<u8>, b: int)
    requires
        0 <= b,
        (b + 1) * 18 <= raw.len(),
    ensures
        spec_q4_0_block(raw, b).0 as int == raw[b * 18] + 256 * raw[b * 18 + 1],
        spec_q4_0_block(raw, b).1.len() == 32,
        forall|i: int|
            0 <= i < 16 ==> #[trigger] spec_q4_0_block(raw, b).1[i] as int == raw[b * 18 + 2 + i]
                % 16 - 8,
        forall|i: int|
            0 <= i < 16 ==> #[trigger] spec_q4_0_block(raw, b).1[i + 16] as int == raw[b * 18 + 2
                + i] / 16 - 8,
{
    let o = b * 18;
    assert forall|i: int| 0 <= i < 16 implies #[trigger] spec_q4_0_block(raw, b).1[i] as int
        == raw[o + 2 + i] % 16 - 8 by {
        let x = raw[o + 2 + i];
        assert(x & 0x0f == x % 16) by (bit_vector);
    }
    assert forall|i: int| 0 <= i < 16 implies #[trigger] spec_q4_0_block(raw, b).1[i + 16] as int
        == raw[o + 2 + i] / 16 - 8 by {
        let x = raw[o + 2 + i];
        assert((x >> 4u8) & 0x0f == x / 16) by (bit_vector);
        assert(o + 2 + (i + 16) - 16 == o + 2 + i);
    }
}

/// How a Q8_0 block is stored: the scale's bits low byte first, then each
/// value as its two's complement byte.
pub proof fn q8_0_bytes_layout(scale: u16, q: Seq<i8>)
    requires
        q.len() == 32,
    ensures
        spec_q8_0_bytes(scale, q).len() == 34,
        spec_q8_0_bytes(scale, q)[0] == scale % 256,
        spec_q8_0_bytes(scale, q)[1] == scale / 256,
        forall|i: int|
            0 <= i < 32 ==> #[trigger] spec_q8_0_bytes(scale, q)[2 + i] as int == if q[i] >= 0 {
                q[i] as int
            } else {
                q[i] + 256
            },
{
    assert((scale & 0xff) as u8 == scale % 256 && (scale >> 8u16) as u8 == scale / 256) by (bit_vector);
    assert forall|i: int| 0 <= i < 32 implies #[trigger] spec_q8_0_bytes(scale, q)[2 + i] as int
        == if q[i] >= 0 {
        q[i] as int
    } else {
        q[i] + 256
    } by {
        let x = q[i];
        assert((x >= 0 ==> x as u8 == x) && (x < 0 ==> x as u8 == x + 256)) by (bit_vector);
    }
}

/// How a Q4_0 block is stored, for values in -8..=7: the scale's bits low
/// byte first, then data byte `i` holding value `i` plus 8 in its low four
/// bits and value `i + 16` plus 8 in its high four bits.
pub proof fn q4_0_bytes_layout(scale: u16, q: Seq<i8>)
    requires
        q.len() == 32,
        forall|i: int| 0 <= i < 32 ==> -8 <= #[trigger] q[i] <= 7,
    ensures
        spec_q4_0_bytes(scale, q).len() == 18,
        spec_q4_0_bytes(scale, q)[0] == scale % 256,
        spec_q4_0_bytes(scale, q)[1] == scale / 256,
        forall|i: int|
            0 <= i < 16 ==> #[trigger] spec_q4_0_bytes(scale, q)[2 + i] as int == (q[i] + 8) + 16
                * (q[i + 16] + 8),
{
    assert((scale & 0xff) as u8 == scale % 256 && (scale >> 8u16) as u8 == scale / 256) by (bit_vector);
    assert forall|i: int| 0 <= i < 16 implies #[trigger] spec_q4_0_bytes(scale, q)[2 + i] as int
        == (q[i] + 8) + 16 * (q[i + 16] + 8) by {
        let a = q[i];
        let c = q[i + 16];
        assert(-8 <= a <= 7 && -8 <= c <= 7);
        let byte = spec_q4_0_bytes(scale, q)[2 + i];
        assert(byte == ((((a + 8) as u8) & 0x0f) | ((((c + 8) as u8) & 0x0f) << 4u8)) as u8);
        assert(byte == (a + 8) + 16 * (c + 8)) by (bit_vector)
            requires
                -8 <= a <= 7,
                -8 <= c <= 7,
                byte == ((((a + 8) as u8) & 0x0f) | ((((c + 8) as u8) & 0x0f) << 4u8)) as u8,
        ;
    }
}

/// Widening a normal half-precision number to single precision and
/// narrowing it back gives the same bits.
pub proof fn lemma_f16_roundtrip(h: u16)
    requires
        1 <= ((h >> 10u16) & 0x1f) <= 30,
    ensures
        spec_f32_to_f16_bits(spec_f16_to_f32_bits(h)) == h,
{
    let sign: u32 = ((h >> 15u16) & 1) as u32;
    let exp: u32 = ((h >> 10u16) & 0x1f) as u32;
    let mant: u32 = (h & 0x3ff) as u32;
    assert(sign <= 1 && mant < 1024) by (bit_vector)
        requires
            sign == ((h >> 15u16) & 1) as u32,
            mant == (h & 0x3ff) as u32,
    ;
    let e2: u32 = (exp + 112) as u32;
    let b: u32 = (sign << 31u32) | (e2 << 23u32) | (mant << 13u32);
    assert(spec_f16_to_f32_bits(h) == b);
    assert((b >> 16u32) & 0x8000 == sign << 15u32) by (bit_vector)
        requires
            b == (sign << 31u32) | (e2 << 23u32) | (mant << 13u32),
            sign <= 1,
            113 <= e2 <= 142,
            mant < 1024,
    ;
    assert((b >> 23u32) & 0xff == e2) by (bit_vector)
        requires
            b == (sign << 31u32) | (e2 << 23u32) | (mant << 13u32),
            sign <= 1,
            113 <= e2 <= 142,
            mant < 1024,
    ;
    assert(b & 0x7f_ffff == mant << 13u32) by (bit_vector)
        requires
            b == (sign << 31u32) | (e2 << 23u32) | (mant << 13u32),
            sign <= 1,
            113 <= e2 <= 142,
            mant < 1024,
    ;
    assert((((sign << 15u32) | (exp << 10u32) | ((mant << 13u32) >> 13u32)) as u16) == h) by (bit_vector)
        requires
            sign == ((h >> 15u16) & 1) as u32,
            exp == ((h >> 10u16) & 0x1f) as u32,
            mant == (h & 0x3ff) as u32,
    ;
}

/// Reading back a written Q8_0 block gives its scale and values.
pub proof fn q8_0_roundtrip(scale: u16, q: Seq<i8>)
    requires
        q.len() == 32,
    ensures
        spec_q8_0_block(spec_q8_0_bytes(scale, q), 0) == (scale, q),
{
    let raw = spec_q8_0_bytes(scale, q);
    let lo = (scale & 0xff) as u8;
    let hi = (scale >> 8u16) as u8;
    assert(raw[0] == lo && raw[1] == hi);
    assert((lo + hi * 256) as u16 == scale) by (bit_vector)
        requires
            lo == (scale & 0xff) as u8,
            hi == (scale >> 8u16) as u8,
    ;
    assert forall|i: int| 0 <= i < 32 implies #[trigger] (raw[2 + i] as i8) == q[i] by {
        let x = q[i];
        assert(((x as u8) as i8) == x) by (bit_vector);
    }
    assert(spec_q8_0_block(raw, 0).1 =~= q);
}

/// Reading back a written Q4_0 block gives its scale and values, for values
/// in -8..=7.
pub proof fn q4_0_roundtrip(scale: u16, q: Seq<i8>)
    requires
        q.len() == 32,
        forall|i: int| 0 <= i < 32 ==> -8 <= #[trigger] q[i] <= 7,
    ensures
        spec_q4_0_block(spec_q4_0_bytes(scale, q), 0) == (scale, q),
{
    let raw = spec_q4_0_bytes(scale, q);
    let lo = (scale & 0xff) as u8;
    let hi = (scale >> 8u16) as u8;
    assert(raw[0] == lo && raw[1] == hi);
    assert((lo + hi * 256) as u16 == scale) by (bit_vector)
        requires
            lo == (scale & 0xff) as u8,
            hi == (scale >> 8u16) as u8,
    ;
    assert forall|i: int| 0 <= i < 32 implies #[trigger] spec_q4_0_block(raw, 0).1[i] == q[i] by {
        if i < 16 {
            let a = q[i];
            let b = q[i + 16];
            let byte = raw[2 + i];
            assert(byte == ((((a + 8) as u8) & 0x0f) | ((((b + 8) as u8) & 0x0f) << 4u8)) as u8);
            assert(((byte & 0x0f) as i8 - 8) as i8 == a) by (bit_vector)
                requires
                    -8 <= a <= 7,
                    -8 <= b <= 7,
                    byte == ((((a + 8) as u8) & 0x0f) | ((((b + 8) as u8) & 0x0f) << 4u8)) as u8,
            ;
        } else {
            let a = q[i - 16];
            let b = q[i];
            let byte = raw[2 + i - 16];
            assert(byte == ((((a + 8) as u8) & 0x0f) | ((((b + 8) as u8) & 0x0f) << 4u8)) as u8);
            assert((((byte >> 4u8) & 0x0f) as i8 - 8) as i8 == b) by (bit_vector)
                requires
                    -8 <= a <= 7,
                    -8 <= b <= 7,
                    byte == ((((a + 8) as u8) & 0x0f) | ((((b + 8) as u8) & 0x0f) << 4u8)) as u8,
            ;
        }
    }
    assert(spec_q4_0_block(raw, 0).1 =~= q);
}

} // verus!

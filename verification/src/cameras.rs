//! Pixel format conversion: unpacking of packed depth and IR samples,
//! Bayer demosaicing and UYVY to RGB conversion.

use vstd::prelude::*;
use vstd::arithmetic::power2::{pow2, lemma_pow2_pos, lemma_pow2_adds, lemma2_to64};
use vstd::bits::{
    lemma_u32_shr_is_div,
    lemma_u32_shl_is_mul,
    lemma_u32_low_bits_mask_is_mod,
    low_bits_mask,
    lemma_u32_pow2_no_overflow,
};

verus! {

// ---------------------------------------------------------------------------
// Packed samples.
//
// A packed buffer is a stream of bits, most significant bit of each byte
// first. Sample `i` of width `w` is made of the bits `i*w .. (i+1)*w` of the
// stream, read most significant bit first.
// ---------------------------------------------------------------------------

/// The first `n` bytes of `src` read as one big-endian number.
pub open spec fn be_value(src: Seq<u8>, n: nat) -> nat
    decreases n,
{
    if n == 0 {
        0
    } else {
        be_value(src, (n - 1) as nat) * 256 + src[n - 1] as nat
    }
}

/// The number of bytes that hold the first `k` samples of width `w`.
pub open spec fn bytes_needed(w: nat, k: nat) -> nat {
    (k * w + 7) / 8
}

/// The bits that follow sample `i` of width `w` in the last byte that holds it.
pub open spec fn pad_bits(w: nat, i: nat) -> nat {
    (8 * bytes_needed(w, i + 1) - (i + 1) * w) as nat
}

/// Sample `i` of width `w` of the packed stream `src`.
pub open spec fn packed_field(src: Seq<u8>, w: nat, i: nat) -> nat {
    (be_value(src, bytes_needed(w, i + 1)) / pow2(pad_bits(w, i))) % pow2(w)
}

/// Sample `i` of width `w` as read from a 32-bit window onto the stream: the
/// last 32 bits of the bytes that hold the sample. It equals the sample
/// itself where the sample and its padding fit in 32 bits (up to 25 bits).
pub open spec fn packed_window_field(src: Seq<u8>, w: nat, i: nat) -> nat {
    ((be_value(src, bytes_needed(w, i + 1)) % pow2(32)) / pow2(pad_bits(w, i))) % pow2(w)
}

/// Splitting a big-endian number into its leading bytes and the rest.
pub proof fn lemma_be_split(src: Seq<u8>, k: nat, m: nat)
    requires
        k + m <= src.len(),
    ensures
        be_value(src, k + m) == be_value(src, k) * pow2(8 * m) + be_value(src.skip(k as int), m),
    decreases m,
{
    if m == 0 {
        lemma2_to64();
        assert(8 * m == 0);
        assert(be_value(src, k) * pow2(0) == be_value(src, k)) by (nonlinear_arith)
            requires
                pow2(0) == 1,
        ;
    } else {
        let m1 = (m - 1) as nat;
        lemma_be_split(src, k, m1);
        assert(src.skip(k as int)[m - 1] == src[k + m - 1]);
        lemma_pow2_adds(8 * m1, 8);
        lemma2_to64();
        let a = be_value(src, k);
        let b = be_value(src.skip(k as int), m1);
        let p = pow2(8 * m1);
        assert(8 * m == 8 * m1 + 8);
        assert(be_value(src, k + m) == be_value(src, k + m1) * 256 + src[(k + m1) as int] as nat);
        assert(be_value(src.skip(k as int), m) == b * 256 + src.skip(k as int)[m1 as int] as nat);
        assert(pow2(8 * m) == p * 256);
        assert((a * p + b) * 256 == a * (p * 256) + b * 256) by (nonlinear_arith);
    }
}

/// Bits above a window of `p + w` bits do not change the `w` bits that
/// follow the lowest `p`.
pub proof fn lemma_high_part_vanishes(a: nat, b: nat, k: nat, p: nat, w: nat)
    requires
        p + w <= k,
        b < pow2(k),
    ensures
        ((a * pow2(k) + b) / pow2(p)) % pow2(w) == (b / pow2(p)) % pow2(w),
{
    let r = (k - p - w) as nat;
    lemma_pow2_adds(p, (k - p) as nat);
    lemma_pow2_adds(w, r);
    lemma_pow2_pos(p);
    lemma_pow2_pos(w);
    let pp = pow2(p);
    let qq = pow2((k - p) as nat);
    let ww = pow2(w);
    let rr = pow2(r);
    assert(pow2(k) == pp * qq);
    assert(qq == ww * rr);
    let x = b / pp;
    let y = b % pp;
    vstd::arithmetic::div_mod::lemma_fundamental_div_mod(b as int, pp as int);
    assert(a * pow2(k) + b == pp * (a * qq + x) + y) by (nonlinear_arith)
        requires
            pow2(k) == pp * qq,
            b == pp * x + y,
    ;
    vstd::arithmetic::div_mod::lemma_fundamental_div_mod_converse(
        (a * pow2(k) + b) as int,
        pp as int,
        (a * qq + x) as int,
        y as int,
    );
    assert(a * qq + x == ww * (a * rr) + x) by (nonlinear_arith)
        requires
            qq == ww * rr,
    ;
    vstd::arithmetic::div_mod::lemma_mod_multiples_vanish((a * rr) as int, x as int, ww as int);
}

/// A big-endian number of `n` bytes is below `2^(8n)`.
pub proof fn lemma_be_value_bound(src: Seq<u8>, n: nat)
    ensures
        be_value(src, n) < pow2(8 * n),
    decreases n,
{
    lemma2_to64();
    if n > 0 {
        let n1 = (n - 1) as nat;
        lemma_be_value_bound(src, n1);
        lemma_pow2_adds(8 * n1, 8);
        assert(8 * n == 8 * n1 + 8);
        let v = be_value(src, n1);
        let p = pow2(8 * n1);
        assert(v * 256 + src[n - 1] < p * 256) by (nonlinear_arith)
            requires
                v < p,
                src[n - 1] < 256,
        ;
    }
}

/// Where a sample and its padding fit in 32 bits, reading it through the
/// 32-bit window gives the sample.
pub proof fn lemma_window_field_exact(src: Seq<u8>, w: nat, i: nat)
    requires
        pad_bits(w, i) + w <= 32,
    ensures
        packed_window_field(src, w, i) == packed_field(src, w, i),
{
    let v = be_value(src, bytes_needed(w, i + 1));
    lemma_pow2_pos(32);
    vstd::arithmetic::div_mod::lemma_fundamental_div_mod(v as int, pow2(32) as int);
    let q = v / pow2(32);
    let r = v % pow2(32);
    assert(v == q * pow2(32) + r) by (nonlinear_arith)
        requires
            v == pow2(32) * q + r,
    ;
    lemma_high_part_vanishes(q, r, 32, pad_bits(w, i), w);
}

/// Samples of up to 25 bits pad to at most 7 bits, so they and their padding
/// fit in 32 bits.
pub proof fn lemma_pad_bits_bound(w: nat, i: nat)
    requires
        w > 0,
    ensures
        pad_bits(w, i) < 8,
        8 * bytes_needed(w, i + 1) >= (i + 1) * w,
{
}

/// Sample `i + 8c` of width `w` is sample `i` of the stream that starts `w*c`
/// bytes later: eight samples of `w` bits take `w` whole bytes.
pub proof fn lemma_packed_field_shift(src: Seq<u8>, w: nat, i: nat, c: nat)
    requires
        bytes_needed(w, i + 8 * c + 1) <= src.len(),
    ensures
        packed_field(src, w, i + 8 * c) == packed_field(src.skip((w * c) as int), w, i),
{
    let nb = bytes_needed(w, i + 1);
    assert((i + 8 * c + 1) * w == (i + 1) * w + 8 * (w * c)) by (nonlinear_arith);
    assert(bytes_needed(w, i + 8 * c + 1) == w * c + nb);
    assert(pad_bits(w, i + 8 * c) == pad_bits(w, i));
    lemma_be_split(src, w * c, nb);
    lemma_be_value_bound(src.skip((w * c) as int), nb);
    assert(pad_bits(w, i) + w <= 8 * nb) by (nonlinear_arith)
        requires
            pad_bits(w, i) == 8 * nb - (i + 1) * w,
            8 * nb >= (i + 1) * w,
    ;
    lemma_high_part_vanishes(
        be_value(src, w * c),
        be_value(src.skip((w * c) as int), nb),
        8 * nb,
        pad_bits(w, i),
        w,
    );
}

/// The 32-bit window after one more byte.
proof fn lemma_window_step(src: Seq<u8>, n: nat)
    ensures
        be_value(src, n + 1) % pow2(32) == ((be_value(src, n) % pow2(32)) * 256 + src[n as int] as nat) % pow2(32),
{
    let v = be_value(src, n);
    let m = pow2(32);
    lemma_pow2_pos(32);
    vstd::arithmetic::div_mod::lemma_fundamental_div_mod(v as int, m as int);
    let q = v / m;
    let r = v % m;
    assert(v * 256 + src[n as int] as nat == m * (q * 256) + (r * 256 + src[n as int] as nat)) by (nonlinear_arith)
        requires
            v == m * q + r,
    ;
    vstd::arithmetic::div_mod::lemma_mod_multiples_vanish(
        (q * 256) as int,
        (r * 256 + src[n as int] as nat) as int,
        m as int,
    );
}

/// Shift a byte into a 32-bit buffer.
fn shift_in(buffer: u32, byte: u8) -> (r: u32)
    ensures
        r == (buffer as nat * 256 + byte as nat) % 0x1_0000_0000,
{
    let x = byte as u32;
    assert(x < 256);
    assert(((buffer << 8u32) | x) == ((buffer as nat * 256 + x as nat) % 0x1_0000_0000)) by (bit_vector)
        requires
            x < 256,
    ;
    (buffer << 8u32) | x
}

/// The bits `shift .. shift + w` of a 32-bit buffer.
fn extract_bits(buffer: u32, shift: u32, w: u32) -> (r: u32)
    requires
        shift < 32,
        w < 32,
    ensures
        r == (buffer as nat / pow2(shift as nat)) % pow2(w as nat),
{
    proof {
        lemma_u32_pow2_no_overflow(w as nat);
        lemma_u32_shl_is_mul(1u32, w);
    }
    let mask = (1u32 << w) - 1;
    assert(mask == low_bits_mask(w as nat));
    let shifted = buffer >> shift;
    proof {
        lemma_u32_shr_is_div(buffer, shift);
        lemma_u32_low_bits_mask_is_mod(shifted, w as nat);
    }
    shifted & mask
}

/// Convert packed elements with `vw` useful bits into 16-bit array.
///
/// * `src` - packed source data
/// * `dest` - destination u16 array
/// * `vw` - virtual width (bits per element)
/// * `n` - number of elements
///
/// Each element is read through a 32-bit window onto the stream and
/// truncated to 16 bits; for widths up to 16 bits it is the packed sample.
pub fn convert_packed_to_16bit(src: &[u8], dest: &mut [u16], vw: usize, n: usize)
    requires
        vw < 32,
        n <= old(dest)@.len(),
        bytes_needed(vw as nat, n as nat) <= src@.len(),
    ensures
        final(dest)@.len() == old(dest)@.len(),
        forall|i: int|
            0 <= i < n ==> #[trigger] final(dest)@[i] == packed_window_field(src@, vw as nat, i as nat)
                % 65536,
        vw <= 16 ==> forall|i: int|
            0 <= i < n ==> #[trigger] final(dest)@[i] == packed_field(src@, vw as nat, i as nat),
        forall|i: int| n <= i < old(dest)@.len() ==> #[trigger] final(dest)@[i] == old(dest)@[i],
{
    let ghost s = src@;
    let ghost w = vw as nat;
    let mut buffer: u32 = 0;
    let mut bits_in: usize = 0;
    let mut src_idx: usize = 0;
    let mut i: usize = 0;
    proof {
        lemma_pow2_pos(32);
        lemma2_to64();
    }
    while i < n
        invariant
            vw < 32,
            w == vw,
            s == src@,
            n <= dest@.len(),
            dest@.len() == old(dest)@.len(),
            bytes_needed(w, n as nat) <= s.len(),
            i <= n,
            src_idx == bytes_needed(w, i as nat),
            8 * src_idx == i * w + bits_in,
            bits_in < 8 || w == 0 || bits_in < w,
            buffer == be_value(s, src_idx as nat) % pow2(32),
            forall|j: int|
                0 <= j < i ==> #[trigger] dest@[j] == packed_window_field(s, w, j as nat) % 65536,
            forall|j: int| n <= j < dest@.len() ==> #[trigger] dest@[j] == old(dest)@[j],
        decreases n - i,
    {
        proof {
            assert((i as nat + 1) * w <= n * w) by (nonlinear_arith)
                requires
                    i < n,
            ;
            assert(i as nat * w + w == (i as nat + 1) * w) by (nonlinear_arith);
        }
        while bits_in < vw
            invariant
                vw < 32,
                w == vw,
                s == src@,
                i < n,
                bytes_needed(w, n as nat) <= s.len(),
                (i as nat + 1) * w <= n * w,
                i as nat * w + w == (i as nat + 1) * w,
                src_idx <= bytes_needed(w, i as nat + 1),
                8 * src_idx == i * w + bits_in,
                bits_in < w + 8,
                buffer == be_value(s, src_idx as nat) % pow2(32),
            decreases bytes_needed(w, i as nat + 1) - src_idx,
        {
            proof {
                assert(bytes_needed(w, i as nat + 1) <= bytes_needed(w, n as nat));
                lemma_window_step(s, src_idx as nat);
                lemma2_to64();
            }
            buffer = shift_in(buffer, src[src_idx]);
            src_idx = src_idx + 1;
            bits_in = bits_in + 8;
        }
        bits_in = bits_in - vw;
        assert(src_idx == bytes_needed(w, i as nat + 1));
        assert(bits_in == pad_bits(w, i as nat));
        let v = extract_bits(buffer, bits_in as u32, vw as u32);
        let out = v as u16;
        assert(out == v % 65536) by (bit_vector)
            requires
                out == v as u16,
        ;
        dest[i] = out;
        i = i + 1;
    }
    proof {
        if vw <= 16 {
            assert forall|j: int| 0 <= j < n implies #[trigger] dest@[j] == packed_field(s, w, j as nat) by {
                if w > 0 {
                    lemma_pad_bits_bound(w, j as nat);
                    lemma_window_field_exact(s, w, j as nat);
                    lemma_pow2_pos(w);
                    if w < 16 {
                        vstd::arithmetic::power2::lemma_pow2_strictly_increases(w, 16);
                    }
                    assert(pow2(16) == 65536);
                } else {
                    assert(pow2(0) == 1);
                }
            }
        }
    }
}

/// A sample is found in the last `m` bytes that hold it, where they hold
/// it together with its padding.
pub proof fn lemma_field_from_tail(src: Seq<u8>, w: nat, i: nat, m: nat)
    requires
        m <= bytes_needed(w, i + 1),
        bytes_needed(w, i + 1) <= src.len(),
        pad_bits(w, i) + w <= 8 * m,
    ensures
        packed_field(src, w, i) == (be_value(
            src.skip(bytes_needed(w, i + 1) - m),
            m,
        ) / pow2(pad_bits(w, i))) % pow2(w),
{
    let nb = bytes_needed(w, i + 1);
    let k = (nb - m) as nat;
    lemma_be_split(src, k, m);
    lemma_be_value_bound(src.skip(k as int), m);
    lemma_high_part_vanishes(
        be_value(src, k),
        be_value(src.skip(k as int), m),
        8 * m,
        pad_bits(w, i),
        w,
    );
}

/// Two bytes read as a big-endian number.
proof fn lemma_be_value_2(src: Seq<u8>)
    requires
        src.len() >= 2,
    ensures
        be_value(src, 2) == src[0] * 256 + src[1],
{
    reveal_with_fuel(be_value, 3);
}

/// Three bytes read as a big-endian number.
proof fn lemma_be_value_3(src: Seq<u8>)
    requires
        src.len() >= 3,
    ensures
        be_value(src, 3) == src[0] * 65536 + src[1] * 256 + src[2],
{
    reveal_with_fuel(be_value, 4);
}

/// Unpack 8 packed 11-bit depth values from 11 bytes into 8 u16 values:
/// value `k` is packed sample `k` of width 11.
pub fn unpack_8_pixels(raw: &[u8], frame: &mut [u16; 8])
    requires
        raw@.len() >= 11,
    ensures
        forall|k: int| 0 <= k < 8 ==> #[trigger] final(frame)@[k] == packed_field(raw@, 11, k as nat),
{
    let r0 = raw[0] as u16;
    let r1 = raw[1] as u16;
    let r2 = raw[2] as u16;
    let r3 = raw[3] as u16;
    let r4 = raw[4] as u16;
    let r5 = raw[5] as u16;
    let r6 = raw[6] as u16;
    let r7 = raw[7] as u16;
    let r8 = raw[8] as u16;
    let r9 = raw[9] as u16;
    let r10 = raw[10] as u16;
    let base_mask: u16 = 0x7FF;
    let f0 = (r0 << 3u16) | (r1 >> 5u16);
    let f1 = ((r1 << 6u16) | (r2 >> 2u16)) & base_mask;
    let f2 = ((r2 << 9u16) | (r3 << 1u16) | (r4 >> 7u16)) & base_mask;
    let f3 = ((r4 << 4u16) | (r5 >> 4u16)) & base_mask;
    let f4 = ((r5 << 7u16) | (r6 >> 1u16)) & base_mask;
    let f5 = ((r6 << 10u16) | (r7 << 2u16) | (r8 >> 6u16)) & base_mask;
    let f6 = ((r8 << 5u16) | (r9 >> 3u16)) & base_mask;
    let f7 = ((r9 << 8u16) | r10) & base_mask;
    let ghost s = raw@;
    assert(f0 == packed_field(s, 11, 0)) by {
        lemma2_to64();
        lemma_field_from_tail(s, 11, 0, 2);
        lemma_be_value_2(s.skip(0));
        assert(f0 == ((r0 * 256 + r1) / 32) % 2048) by (bit_vector)
            requires
                r0 < 256 && r1 < 256,
                f0 == (r0 << 3u16) | (r1 >> 5u16),
        ;
    }
    assert(f1 == packed_field(s, 11, 1)) by {
        lemma2_to64();
        lemma_field_from_tail(s, 11, 1, 2);
        lemma_be_value_2(s.skip(1));
        assert(f1 == ((r1 * 256 + r2) / 4) % 2048) by (bit_vector)
            requires
                r1 < 256 && r2 < 256,
                f1 == ((r1 << 6u16) | (r2 >> 2u16)) & 0x7FFu16,
        ;
    }
    assert(f2 == packed_field(s, 11, 2)) by {
        lemma2_to64();
        lemma_field_from_tail(s, 11, 2, 3);
        lemma_be_value_3(s.skip(2));
        assert(f2 == ((r2 * 65536 + r3 * 256 + r4) / 128) % 2048) by (bit_vector)
            requires
                r2 < 256 && r3 < 256 && r4 < 256,
                f2 == ((r2 << 9u16) | (r3 << 1u16) | (r4 >> 7u16)) & 0x7FFu16,
        ;
    }
    assert(f3 == packed_field(s, 11, 3)) by {
        lemma2_to64();
        lemma_field_from_tail(s, 11, 3, 2);
        lemma_be_value_2(s.skip(4));
        assert(f3 == ((r4 * 256 + r5) / 16) % 2048) by (bit_vector)
            requires
                r4 < 256 && r5 < 256,
                f3 == ((r4 << 4u16) | (r5 >> 4u16)) & 0x7FFu16,
        ;
    }
    assert(f4 == packed_field(s, 11, 4)) by {
        lemma2_to64();
        lemma_field_from_tail(s, 11, 4, 2);
        lemma_be_value_2(s.skip(5));
        assert(f4 == ((r5 * 256 + r6) / 2) % 2048) by (bit_vector)
            requires
                r5 < 256 && r6 < 256,
                f4 == ((r5 << 7u16) | (r6 >> 1u16)) & 0x7FFu16,
        ;
    }
    assert(f5 == packed_field(s, 11, 5)) by {
        lemma2_to64();
        lemma_field_from_tail(s, 11, 5, 3);
        lemma_be_value_3(s.skip(6));
        assert(f5 == ((r6 * 65536 + r7 * 256 + r8) / 64) % 2048) by (bit_vector)
            requires
                r6 < 256 && r7 < 256 && r8 < 256,
                f5 == ((r6 << 10u16) | (r7 << 2u16) | (r8 >> 6u16)) & 0x7FFu16,
        ;
    }
    assert(f6 == packed_field(s, 11, 6)) by {
        lemma2_to64();
        lemma_field_from_tail(s, 11, 6, 2);
        lemma_be_value_2(s.skip(8));
        assert(f6 == ((r8 * 256 + r9) / 8) % 2048) by (bit_vector)
            requires
                r8 < 256 && r9 < 256,
                f6 == ((r8 << 5u16) | (r9 >> 3u16)) & 0x7FFu16,
        ;
    }
    assert(f7 == packed_field(s, 11, 7)) by {
        lemma2_to64();
        lemma_field_from_tail(s, 11, 7, 2);
        lemma_be_value_2(s.skip(9));
        assert(pad_bits(11, 7) == 0);
        assert((r9 * 256 + r10) as nat / pow2(0) == (r9 * 256 + r10) as nat);
        assert(f7 == (r9 * 256 + r10) % 2048) by (bit_vector)
            requires
                r9 < 256 && r10 < 256,
                f7 == ((r9 << 8u16) | r10) & 0x7FFu16,
        ;
    }
    *frame = [f0, f1, f2, f3, f4, f5, f6, f7];
}

/// Convert packed 11-bit depth to 16-bit: value `i` is packed sample `i` of
/// width 11. `n` must be a multiple of 8.
pub fn convert_packed11_to_16bit(raw: &[u8], frame: &mut [u16], n: usize)
    requires
        n % 8 == 0,
        n <= old(frame)@.len(),
        11 * (n / 8) <= raw@.len(),
    ensures
        final(frame)@.len() == old(frame)@.len(),
        forall|i: int| 0 <= i < n ==> #[trigger] final(frame)@[i] == packed_field(raw@, 11, i as nat),
        forall|i: int| n <= i < old(frame)@.len() ==> #[trigger] final(frame)@[i] == old(frame)@[i],
{
    let mut raw_off: usize = 0;
    let mut frame_off: usize = 0;
    let mut remaining = n;
    let mut unpack = [0u16; 8];
    while remaining >= 8
        invariant
            n % 8 == 0,
            n <= frame@.len(),
            frame@.len() == old(frame)@.len(),
            11 * (n / 8) <= raw@.len(),
            frame_off % 8 == 0,
            frame_off + remaining == n,
            raw_off == 11 * (frame_off / 8),
            forall|i: int| 0 <= i < frame_off ==> #[trigger] frame@[i] == packed_field(raw@, 11, i as nat),
            forall|i: int| n <= i < frame@.len() ==> #[trigger] frame@[i] == old(frame)@[i],
        decreases remaining,
    {
        let ghost j = frame_off / 8;
        assert(raw_off + 11 <= raw@.len()) by {
            assert(j + 1 <= n / 8);
        }
        let chunk = &raw[raw_off..raw.len()];
        assert(chunk@ =~= raw@.skip(raw_off as int));
        unpack_8_pixels(chunk, &mut unpack);
        let mut k: usize = 0;
        while k < 8
            invariant
                k <= 8,
                frame_off + 8 <= n,
                n <= frame@.len(),
                frame@.len() == old(frame)@.len(),
                frame_off % 8 == 0,
                j == frame_off / 8,
                raw_off == 11 * j,
                raw_off + 11 <= raw@.len(),
                forall|q: int| 0 <= q < 8 ==> #[trigger] unpack@[q] == packed_field(raw@.skip(raw_off as int), 11, q as nat),
                forall|i: int| 0 <= i < frame_off + k ==> #[trigger] frame@[i] == packed_field(raw@, 11, i as nat),
                forall|i: int| n <= i < frame@.len() ==> #[trigger] frame@[i] == old(frame)@[i],
            decreases 8 - k,
        {
            proof {
                assert(bytes_needed(11, (k + 8 * j + 1) as nat) <= 11 * (j + 1)) by (nonlinear_arith)
                    requires
                        k < 8,
                ;
                lemma_packed_field_shift(raw@, 11, k as nat, j as nat);
                assert(frame_off + k == k + 8 * j);
            }
            frame[frame_off + k] = unpack[k];
            k = k + 1;
        }
        remaining = remaining - 8;
        raw_off = raw_off + 11;
        frame_off = frame_off + 8;
    }
}

/// The high 8 bits of sample `i` of width `w` (at least 8 bits).
pub open spec fn packed_top8(src: Seq<u8>, w: nat, i: nat) -> nat {
    (be_value(src, bytes_needed(w, i + 1)) / pow2((pad_bits(w, i) + w - 8) as nat)) % 256
}

/// The high 8 bits of sample `i` as read from a 32-bit window onto the
/// stream; it equals `packed_top8` for samples of up to 25 bits.
pub open spec fn packed_window_top8(src: Seq<u8>, w: nat, i: nat) -> nat {
    ((be_value(src, bytes_needed(w, i + 1)) % pow2(32)) / pow2((pad_bits(w, i) + w - 8) as nat)) % 256
}

/// The byte at bit `shift` of a 32-bit buffer.
fn extract_byte(buffer: u32, shift: u32) -> (r: u8)
    requires
        shift < 32,
    ensures
        r == (buffer as nat / pow2(shift as nat)) % 256,
{
    let shifted = buffer >> shift;
    proof {
        lemma_u32_shr_is_div(buffer, shift);
    }
    let r = shifted as u8;
    assert(r == shifted % 256) by (bit_vector)
        requires
            r == shifted as u8,
    ;
    r
}

/// Convert packed elements with `vw` useful bits into 8-bit array, keeping
/// the high 8 bits of each.
///
/// * `src` - packed source data
/// * `dest` - destination u8 array
/// * `vw` - virtual width (bits per element, at least 8)
/// * `n` - number of elements
pub fn convert_packed_to_8bit(src: &[u8], dest: &mut [u8], vw: usize, n: usize)
    requires
        vw >= 8,
        n > 0 ==> vw <= 32,
        n <= old(dest)@.len(),
        bytes_needed(vw as nat, n as nat) <= src@.len(),
    ensures
        final(dest)@.len() == old(dest)@.len(),
        forall|i: int|
            0 <= i < n ==> #[trigger] final(dest)@[i] == packed_window_top8(src@, vw as nat, i as nat),
        vw <= 25 ==> forall|i: int|
            0 <= i < n ==> #[trigger] final(dest)@[i] == packed_top8(src@, vw as nat, i as nat),
        forall|i: int| n <= i < old(dest)@.len() ==> #[trigger] final(dest)@[i] == old(dest)@[i],
{
    let ghost s = src@;
    let ghost w = vw as nat;
    let mut buffer: u32 = 0;
    let mut bits_in: usize = 0;
    let mut src_idx: usize = 0;
    let mut i: usize = 0;
    proof {
        lemma_pow2_pos(32);
        lemma2_to64();
    }
    while i < n
        invariant
            vw >= 8,
            n > 0 ==> vw <= 32,
            w == vw,
            s == src@,
            n <= dest@.len(),
            dest@.len() == old(dest)@.len(),
            bytes_needed(w, n as nat) <= s.len(),
            i <= n,
            src_idx == bytes_needed(w, i as nat),
            8 * src_idx == i * w + bits_in,
            bits_in < 8,
            buffer == be_value(s, src_idx as nat) % pow2(32),
            forall|j: int|
                0 <= j < i ==> #[trigger] dest@[j] == packed_window_top8(s, w, j as nat),
            forall|j: int| n <= j < dest@.len() ==> #[trigger] dest@[j] == old(dest)@[j],
        decreases n - i,
    {
        proof {
            assert((i as nat + 1) * w <= n * w) by (nonlinear_arith)
                requires
                    i < n,
            ;
            assert(i as nat * w + w == (i as nat + 1) * w) by (nonlinear_arith);
        }
        while bits_in < vw
            invariant
                vw >= 8,
                vw <= 32,
                w == vw,
                s == src@,
                i < n,
                bytes_needed(w, n as nat) <= s.len(),
                (i as nat + 1) * w <= n * w,
                i as nat * w + w == (i as nat + 1) * w,
                src_idx <= bytes_needed(w, i as nat + 1),
                8 * src_idx == i * w + bits_in,
                bits_in < w + 8,
                buffer == be_value(s, src_idx as nat) % pow2(32),
            decreases bytes_needed(w, i as nat + 1) - src_idx,
        {
            proof {
                assert(bytes_needed(w, i as nat + 1) <= bytes_needed(w, n as nat));
                lemma_window_step(s, src_idx as nat);
                lemma2_to64();
            }
            buffer = shift_in(buffer, src[src_idx]);
            src_idx = src_idx + 1;
            bits_in = bits_in + 8;
        }
        bits_in = bits_in - vw;
        assert(src_idx == bytes_needed(w, i as nat + 1));
        assert(bits_in == pad_bits(w, i as nat));
        let b = extract_byte(buffer, (bits_in + vw - 8) as u32);
        dest[i] = b;
        i = i + 1;
    }
    proof {
        if vw <= 25 {
            assert forall|j: int| 0 <= j < n implies #[trigger] dest@[j] == packed_top8(s, w, j as nat) by {
                lemma_window_top8_exact(s, w, j as nat);
            }
        }
    }
}

/// Where a sample and its padding fit in 32 bits, its high byte read
/// through the 32-bit window is its high byte.
pub proof fn lemma_window_top8_exact(src: Seq<u8>, w: nat, i: nat)
    requires
        8 <= w <= 25,
    ensures
        packed_window_top8(src, w, i) == packed_top8(src, w, i),
{
    lemma_pad_bits_bound(w, i);
    let v = be_value(src, bytes_needed(w, i + 1));
    lemma_pow2_pos(32);
    lemma2_to64();
    vstd::arithmetic::div_mod::lemma_fundamental_div_mod(v as int, pow2(32) as int);
    let q = v / pow2(32);
    let r = v % pow2(32);
    assert(v == q * pow2(32) + r) by (nonlinear_arith)
        requires
            v == pow2(32) * q + r,
    ;
    lemma_high_part_vanishes(q, r, 32, (pad_bits(w, i) + w - 8) as nat, 8);
}

/// The two conversions of packed 11-bit depth agree: the dedicated one and
/// the general one with a width of 11.
pub proof fn lemma_packed11_conversions_agree(src: Seq<u8>, i: nat)
    ensures
        packed_window_field(src, 11, i) % 65536 == packed_field(src, 11, i),
        packed_field(src, 11, i) < 2048,
{
    lemma_pad_bits_bound(11, i);
    lemma_window_field_exact(src, 11, i);
    lemma2_to64();
    lemma_pow2_pos(11);
}

// ---------------------------------------------------------------------------
// Bayer demosaicing.
// ---------------------------------------------------------------------------

/// The raw sample at column `x`, row `y` of a `w` by `h` Bayer image, where
/// the rows and columns just outside the image mirror the second and the
/// second-to-last ones.
pub open spec fn bayer_sample(raw: Seq<u8>, w: int, h: int, x: int, y: int) -> int {
    let yy = if y < 0 {
        1
    } else if y >= h {
        h - 2
    } else {
        y
    };
    let xx = if x < 0 {
        1
    } else if x >= w {
        w - 2
    } else {
        x
    };
    raw[yy * w + xx] as int
}

/// The RGB value of the pixel at column `x`, row `y`, interpolated
/// bilinearly from the pattern
/// ```text
/// G R G R
/// B G B G
/// ```
pub open spec fn bayer_rgb(raw: Seq<u8>, w: int, h: int, x: int, y: int) -> (int, int, int) {
    let p = |dx: int, dy: int| bayer_sample(raw, w, h, x + dx, y + dy);
    let horiz = (p(-1, 0) + p(1, 0)) / 2;
    let vert = (p(0, -1) + p(0, 1)) / 2;
    let cross = (p(-1, 0) + p(1, 0) + p(0, -1) + p(0, 1)) / 4;
    let diag = (p(-1, -1) + p(1, -1) + p(-1, 1) + p(1, 1)) / 4;
    if y % 2 == 0 {
        if x % 2 == 0 {
            (horiz, p(0, 0), vert)
        } else {
            (p(0, 0), cross, diag)
        }
    } else {
        if x % 2 == 0 {
            (diag, cross, p(0, 0))
        } else {
            (vert, p(0, 0), horiz)
        }
    }
}

/// The shape of a Bayer image the conversion accepts: no rows, or at least
/// two rows of no columns or at least two columns.
pub open spec fn bayer_shape_ok(w: int, h: int) -> bool {
    h == 0 || (h >= 2 && (w == 0 || w >= 2))
}

fn avg2(a: u8, b: u8) -> (r: u8)
    ensures
        r == (a + b) / 2,
{
    let s = a as u16 + b as u16;
    assert(s >> 1u16 == s / 2) by (bit_vector);
    (s >> 1u16) as u8
}

fn avg4(a: u8, b: u8, c: u8, d: u8) -> (r: u8)
    ensures
        r == (a + b + c + d) / 4,
{
    let s = a as u16 + b as u16 + c as u16 + d as u16;
    assert(s >> 2u16 == s / 4) by (bit_vector);
    (s >> 2u16) as u8
}

/// The RGB value of the pixel at column `x`, row `y`, read from the rows
/// at `prev`, `cur` and `next`.
fn bayer_pixel(
    raw_buf: &[u8],
    width: usize,
    height: usize,
    x: usize,
    y: usize,
    prev: usize,
    cur: usize,
    next: usize,
) -> (r: (u8, u8, u8))
    requires
        raw_buf@.len() == width * height,
        width >= 2,
        height >= 2,
        x < width,
        y < height,
        cur == y * width,
        prev == (if y > 0 {
            (y - 1) * width
        } else {
            width as int
        }),
        next == (if y < height - 1 {
            (y + 1) * width
        } else {
            (y - 1) * width
        }),
        (y - 1) * width == cur - width,
        (y + 1) * width == cur + width,
        cur + width <= width * height,
        prev + width <= width * height,
        next + width <= width * height,
    ensures
        ({
            let rgb = bayer_rgb(raw_buf@, width as int, height as int, x as int, y as int);
            r.0 == rgb.0 && r.1 == rgb.1 && r.2 == rgb.2
        }),
{
    let ghost raw = raw_buf@;
    let ghost w = width as int;
    let ghost h = height as int;
    let len = raw_buf.len();
    assert(cur + width <= len);
    let xp = if x > 0 {
        x - 1
    } else {
        1
    };
    let xn = if x < width - 1 {
        x + 1
    } else {
        width - 2
    };
    let prev_v = raw_buf[cur + xp];
    let curr = raw_buf[cur + x];
    let next_v = raw_buf[cur + xn];
    let above_prev = raw_buf[prev + xp];
    let above_curr = raw_buf[prev + x];
    let above_next = raw_buf[prev + xn];
    let below_prev = raw_buf[next + xp];
    let below_curr = raw_buf[next + x];
    let below_next = raw_buf[next + xn];
    assert(bayer_sample(raw, w, h, x - 1, y as int) == prev_v);
    assert(bayer_sample(raw, w, h, x + 1, y as int) == next_v);
    assert(bayer_sample(raw, w, h, x as int, y as int) == curr);
    assert(bayer_sample(raw, w, h, x - 1, y - 1) == above_prev);
    assert(bayer_sample(raw, w, h, x as int, y - 1) == above_curr);
    assert(bayer_sample(raw, w, h, x + 1, y - 1) == above_next);
    assert(bayer_sample(raw, w, h, x - 1, y + 1) == below_prev);
    assert(bayer_sample(raw, w, h, x as int, y + 1) == below_curr);
    assert(bayer_sample(raw, w, h, x + 1, y + 1) == below_next);
    if y % 2 == 0 {
        if x % 2 == 0 {
            (avg2(prev_v, next_v), curr, avg2(above_curr, below_curr))
        } else {
            (
                curr,
                avg4(prev_v, next_v, above_curr, below_curr),
                avg4(above_prev, above_next, below_prev, below_next),
            )
        }
    } else {
        if x % 2 == 0 {
            (
                avg4(above_prev, above_next, below_prev, below_next),
                avg4(prev_v, next_v, above_curr, below_curr),
                curr,
            )
        } else {
            (avg2(above_curr, below_curr), curr, avg2(prev_v, next_v))
        }
    }
}

/// Pixel `q` of the output holds `rgb`.
pub open spec fn rgb_at(buf: Seq<u8>, q: int, rgb: (int, int, int)) -> bool {
    &&& buf[3 * q] == rgb.0
    &&& buf[3 * q + 1] == rgb.1
    &&& buf[3 * q + 2] == rgb.2
}

/// Convert Bayer-pattern raw image to RGB using bilinear interpolation.
///
/// Pattern arrangement:
/// ```text
/// G R G R
/// B G B G
/// G R G R
/// B G B G
/// ```
///
/// * `raw_buf` - Bayer raw input, 1 byte per pixel
/// * `proc_buf` - RGB output, 3 bytes per pixel; pixel `q` is at column
///   `q % width` of row `q / width`
/// * `width` - image width
/// * `height` - image height
pub fn convert_bayer_to_rgb(raw_buf: &[u8], proc_buf: &mut [u8], width: usize, height: usize)
    requires
        raw_buf@.len() == width * height,
        old(proc_buf)@.len() == width * height * 3,
        bayer_shape_ok(width as int, height as int),
    ensures
        final(proc_buf)@.len() == old(proc_buf)@.len(),
        forall|q: int|
            0 <= q < width * height ==> rgb_at(
                final(proc_buf)@,
                q,
                #[trigger] bayer_rgb(raw_buf@, width as int, height as int, q % width as int, q / width as int),
            ),
{
    let ghost raw = raw_buf@;
    let ghost w = width as int;
    let ghost h = height as int;
    let mut dst: usize = 0;
    let mut y: usize = 0;
    while y < height
        invariant
            raw == raw_buf@,
            w == width,
            h == height,
            raw.len() == w * h,
            proc_buf@.len() == w * h * 3,
            bayer_shape_ok(w, h),
            y <= height,
            y * w <= w * h,
            dst == 3 * (y * width),
            forall|q: int|
                0 <= q < y * w ==> rgb_at(proc_buf@, q, #[trigger] bayer_rgb(raw, w, h, q % w, q / w)),
        decreases height - y,
    {
        proof {
            assert((y + 1) * w <= h * w) by (nonlinear_arith)
                requires
                    y < h,
                    w >= 0,
            ;
            assert((y + 1) * w == y * w + w) by (nonlinear_arith);
            assert(h * w == w * h) by (nonlinear_arith);
            assert(y * w >= 0) by (nonlinear_arith)
                requires
                    w >= 0,
            ;
            assert(h >= 2);
            if y >= 1 {
                assert((y - 1) * w == y * w - w) by (nonlinear_arith);
                assert(y * w >= w) by (nonlinear_arith)
                    requires
                        y >= 1,
                        w >= 0,
                ;
            }
            if y + 1 < h {
                assert((y + 2) * w <= h * w) by (nonlinear_arith)
                    requires
                        y + 2 <= h,
                        w >= 0,
                ;
                assert((y + 2) * w == y * w + 2 * w) by (nonlinear_arith);
            }
            assert(2 * w <= h * w) by (nonlinear_arith)
                requires
                    h >= 2,
                    w >= 0,
            ;
        }
        let cur = y * width;
        let prev = if y > 0 {
            cur - width
        } else {
            width
        };
        let next = if y < height - 1 {
            cur + width
        } else {
            cur - width
        };
        let y_odd = y % 2;
        let mut x: usize = 0;
        while x < width
            invariant
                raw == raw_buf@,
                w == width,
                h == height,
                raw.len() == w * h,
                proc_buf@.len() == w * h * 3,
                bayer_shape_ok(w, h),
                y < height,
                cur == y * w,
                cur + w <= w * h,
                prev == (if y > 0 {
                    (y - 1) * w
                } else {
                    w
                }),
                next == (if y < h - 1 {
                    (y + 1) * w
                } else {
                    (y - 1) * w
                }),
                (y - 1) * w == cur - w,
                (y + 1) * w == cur + w,
                y_odd == y % 2,
                prev + w <= w * h,
                next + w <= w * h,
                x <= width,
                dst == 3 * (cur + x),
                forall|q: int|
                    0 <= q < cur + x ==> rgb_at(proc_buf@, q, #[trigger] bayer_rgb(raw, w, h, q % w, q / w)),
            decreases width - x,
        {
            let (r, g, b) = bayer_pixel(raw_buf, width, height, x, y, prev, cur, next);
            proof {
                vstd::arithmetic::div_mod::lemma_fundamental_div_mod_converse(cur + x, w, y as int, x as int);
            }
            proc_buf[dst] = r;
            proc_buf[dst + 1] = g;
            proc_buf[dst + 2] = b;
            dst = dst + 3;
            x = x + 1;
        }
        y = y + 1;
    }
    assert(y == h);
    assert(h * w == w * h) by (nonlinear_arith);
}

// ---------------------------------------------------------------------------
// UYVY (YCbCr 4:2:2) to RGB.
// ---------------------------------------------------------------------------

/// Integer division rounding toward zero, as Rust's `/` does.
pub open spec fn trunc_div(a: int, b: int) -> int {
    if a >= 0 {
        a / b
    } else {
        -((-a) / b)
    }
}

/// `v` limited to the range of a byte.
pub open spec fn clamp_byte(v: int) -> int {
    if v < 0 {
        0
    } else if v > 255 {
        255
    } else {
        v
    }
}

/// The RGB value of luma `y` with chroma `u`, `v`, in fixed point with
/// three decimals.
pub open spec fn yuv_to_rgb(y: int, u: int, v: int) -> (int, int, int) {
    let c = trunc_div((y - 16) * 1164, 1000);
    (
        clamp_byte(c + trunc_div((v - 128) * 1596, 1000)),
        clamp_byte(c - trunc_div((v - 128) * 813, 1000) - trunc_div((u - 128) * 391, 1000)),
        clamp_byte(c + trunc_div((u - 128) * 2018, 1000)),
    )
}

/// The first pixel of the UYVY pair that starts at pixel `p`.
pub open spec fn uyvy_first(raw: Seq<u8>, p: int) -> (int, int, int) {
    yuv_to_rgb(raw[2 * p + 1] as int, raw[2 * p] as int, raw[2 * p + 2] as int)
}

/// The second pixel of the UYVY pair that starts at pixel `p`.
pub open spec fn uyvy_second(raw: Seq<u8>, p: int) -> (int, int, int) {
    yuv_to_rgb(raw[2 * p + 3] as int, raw[2 * p] as int, raw[2 * p + 2] as int)
}

/// The RGB value of pixel `q` of an image `w` pixels wide: pairs start at
/// the even columns; a pixel at an odd column is the second of its pair.
pub open spec fn uyvy_pixel(raw: Seq<u8>, w: int, q: int) -> (int, int, int) {
    if (q % w) % 2 == 0 {
        uyvy_first(raw, q)
    } else {
        uyvy_second(raw, q - 1)
    }
}

/// The pixel at which the last pair of the image starts.
pub open spec fn uyvy_last_pair(w: int, h: int) -> int {
    w * (h - 1) + 2 * ((w - 1) / 2)
}

/// An odd width makes the last pair of each row spill one pixel into the
/// next row (which the next row overwrites); after the last row it spills
/// past the image.
pub open spec fn uyvy_spill(w: int, h: int) -> int {
    if w % 2 == 1 && h > 0 {
        1
    } else {
        0
    }
}

fn trunc_div_1000(a: i32) -> (r: i32)
    requires
        -10_000_000 <= a <= 10_000_000,
    ensures
        r == trunc_div(a as int, 1000),
{
    if a >= 0 {
        a / 1000
    } else {
        -((-a) / 1000)
    }
}

fn clamp_u8(v: i32) -> (r: u8)
    ensures
        r == clamp_byte(v as int),
{
    if v < 0 {
        0
    } else if v > 255 {
        255
    } else {
        v as u8
    }
}

fn yuv_pixel(y: u8, u: u8, v: u8) -> (r: (u8, u8, u8))
    ensures
        ({
            let rgb = yuv_to_rgb(y as int, u as int, v as int);
            r.0 == rgb.0 && r.1 == rgb.1 && r.2 == rgb.2
        }),
{
    let yy = y as i32;
    let uu = u as i32;
    let vv = v as i32;
    let c = trunc_div_1000((yy - 16) * 1164);
    let rr = c + trunc_div_1000((vv - 128) * 1596);
    let gg = c - trunc_div_1000((vv - 128) * 813) - trunc_div_1000((uu - 128) * 391);
    let bb = c + trunc_div_1000((uu - 128) * 2018);
    (clamp_u8(rr), clamp_u8(gg), clamp_u8(bb))
}

/// Converts the UYVY pair that starts at pixel `p` into the RGB pixels `p`
/// and `p + 1`.
fn write_uyvy_pair(raw_buf: &[u8], proc_buf: &mut [u8], p: usize)
    requires
        2 * p + 4 <= raw_buf@.len(),
        3 * p + 6 <= old(proc_buf)@.len(),
    ensures
        final(proc_buf)@.len() == old(proc_buf)@.len(),
        rgb_at(final(proc_buf)@, p as int, uyvy_first(raw_buf@, p as int)),
        rgb_at(final(proc_buf)@, p + 1, uyvy_second(raw_buf@, p as int)),
        forall|k: int|
            0 <= k < old(proc_buf)@.len() && (k < 3 * p || k >= 3 * p + 6) ==> #[trigger] final(proc_buf)@[k] == old(proc_buf)@[k],
{
    let _plen = proc_buf.len();
    let i = p * 2;
    let u = raw_buf[i];
    let y1 = raw_buf[i + 1];
    let v = raw_buf[i + 2];
    let y2 = raw_buf[i + 3];
    let (r1, g1, b1) = yuv_pixel(y1, u, v);
    let (r2, g2, b2) = yuv_pixel(y2, u, v);
    let out_i = p * 3;
    proc_buf[out_i] = r1;
    proc_buf[out_i + 1] = g1;
    proc_buf[out_i + 2] = b1;
    proc_buf[out_i + 3] = r2;
    proc_buf[out_i + 4] = g2;
    proc_buf[out_i + 5] = b2;
}

/// The pixels before `n` hold their converted values.
pub open spec fn uyvy_prefix_done(buf: Seq<u8>, raw: Seq<u8>, w: int, n: int) -> bool {
    forall|q: int| 0 <= q < n ==> rgb_at(buf, q, #[trigger] uyvy_pixel(raw, w, q))
}

/// The bytes from `k0` on are those of `orig`.
pub open spec fn tail_unchanged(buf: Seq<u8>, orig: Seq<u8>, k0: int) -> bool {
    &&& buf.len() == orig.len()
    &&& forall|k: int| k0 <= k < orig.len() ==> #[trigger] buf[k] == orig[k]
}

/// The pixels of the image done after the pairs before column `x` of the
/// row that starts at pixel `row`.
pub open spec fn uyvy_done(row: int, x: int, w: int) -> int {
    row + if x < w {
        x
    } else {
        w
    }
}

/// The last pair written spilled one pixel past the pixels done.
pub open spec fn uyvy_spilled(x: int, y: int, w: int) -> bool {
    x > w || (x == 0 && y > 0 && w % 2 == 1)
}

/// The state of the conversion before the pair at column `x` of row `y`.
pub open spec fn uyvy_progress(buf: Seq<u8>, orig: Seq<u8>, raw: Seq<u8>, w: int, y: int, row: int, x: int) -> bool {
    let n = uyvy_done(row, x, w);
    &&& uyvy_prefix_done(buf, raw, w, n)
    &&& uyvy_spilled(x, y, w) ==> rgb_at(buf, n, uyvy_second(raw, n - 1))
    &&& tail_unchanged(
        buf,
        orig,
        3 * (n + if uyvy_spilled(x, y, w) {
            1int
        } else {
            0int
        }),
    )
}

proof fn lemma_uyvy_prefix_extend(b0: Seq<u8>, b1: Seq<u8>, raw: Seq<u8>, w: int, p: int, n1: int)
    requires
        0 <= p,
        p <= n1 <= p + 2,
        uyvy_prefix_done(b0, raw, w, p),
        b1.len() == b0.len(),
        3 * p + 6 <= b0.len(),
        n1 >= p + 1 ==> rgb_at(b1, p, uyvy_pixel(raw, w, p)),
        n1 == p + 2 ==> rgb_at(b1, p + 1, uyvy_pixel(raw, w, p + 1)),
        forall|k: int| 0 <= k < 3 * p ==> #[trigger] b1[k] == b0[k],
    ensures
        uyvy_prefix_done(b1, raw, w, n1),
{
    assert forall|q: int| 0 <= q < n1 implies rgb_at(b1, q, #[trigger] uyvy_pixel(raw, w, q)) by {
        if q < p {
            assert(rgb_at(b0, q, uyvy_pixel(raw, w, q)));
            assert(b1[3 * q] == b0[3 * q]);
            assert(b1[3 * q + 1] == b0[3 * q + 1]);
            assert(b1[3 * q + 2] == b0[3 * q + 2]);
        }
    }
}

proof fn lemma_uyvy_pair_step(
    b0: Seq<u8>,
    b1: Seq<u8>,
    orig: Seq<u8>,
    raw: Seq<u8>,
    w: int,
    y: int,
    row: int,
    x: int,
)
    requires
        w > 0,
        y >= 0,
        row == y * w,
        0 <= x < w,
        x % 2 == 0,
        uyvy_progress(b0, orig, raw, w, y, row, x),
        b1.len() == b0.len(),
        3 * (row + x) + 6 <= b0.len(),
        rgb_at(b1, row + x, uyvy_first(raw, row + x)),
        rgb_at(b1, row + x + 1, uyvy_second(raw, row + x)),
        forall|k: int|
            0 <= k < b0.len() && (k < 3 * (row + x) || k >= 3 * (row + x) + 6) ==> #[trigger] b1[k]
                == b0[k],
    ensures
        uyvy_progress(b1, orig, raw, w, y, row, x + 2),
{
    let p = row + x;
    vstd::arithmetic::div_mod::lemma_fundamental_div_mod_converse(p, w, y, x);
    assert(uyvy_pixel(raw, w, p) == uyvy_first(raw, p));
    if x + 1 < w {
        vstd::arithmetic::div_mod::lemma_fundamental_div_mod_converse(p + 1, w, y, x + 1);
        assert(uyvy_pixel(raw, w, p + 1) == uyvy_second(raw, p));
    }
    let n1 = uyvy_done(row, x + 2, w);
    assert(uyvy_done(row, x, w) == p);
    lemma_uyvy_prefix_extend(b0, b1, raw, w, p, n1);
    let k1 = 3 * (n1 + if uyvy_spilled(x + 2, y, w) {
        1int
    } else {
        0int
    });
    assert(k1 >= 3 * p + 6);
    assert forall|k: int| k1 <= k < orig.len() implies #[trigger] b1[k] == orig[k] by {
        assert(b1[k] == b0[k]);
    }
}

/// Convert UYVY (YCbCr 4:2:2) to RGB.
///
/// * `raw_buf` - UYVY input, 4 bytes per 2 pixels
/// * `proc_buf` - RGB output, 3 bytes per pixel; pixel `q` is at column
///   `q % width` of row `q / width`
/// * `width` - image width in pixels
/// * `height` - image height in pixels
pub fn convert_uyvy_to_rgb(raw_buf: &[u8], proc_buf: &mut [u8], width: usize, height: usize)
    requires
        width > 0 && height > 0 ==> {
            &&& 2 * uyvy_last_pair(width as int, height as int) + 4 <= raw_buf@.len()
            &&& 3 * uyvy_last_pair(width as int, height as int) + 6 <= old(proc_buf)@.len()
        },
    ensures
        final(proc_buf)@.len() == old(proc_buf)@.len(),
        forall|q: int|
            0 <= q < width * height ==> rgb_at(final(proc_buf)@, q, #[trigger] uyvy_pixel(raw_buf@, width as int, q)),
        uyvy_spill(width as int, height as int) == 1 ==> rgb_at(
            final(proc_buf)@,
            width * height,
            uyvy_second(raw_buf@, width * height - 1),
        ),
        forall|k: int|
            3 * (width * height + uyvy_spill(width as int, height as int)) <= k < old(proc_buf)@.len()
                ==> #[trigger] final(proc_buf)@[k] == old(proc_buf)@[k],
{
    let ghost raw = raw_buf@;
    let ghost w = width as int;
    let ghost h = height as int;
    let ghost old_proc = proc_buf@;
    if width == 0 || height == 0 {
        assert(w * h == 0) by (nonlinear_arith)
            requires
                w == 0 || h == 0,
        ;
        return;
    }
    let ghost lp = uyvy_last_pair(w, h);
    let raw_len = raw_buf.len();
    let proc_len = proc_buf.len();
    proof {
        assert(w * (h - 1) >= 0) by (nonlinear_arith)
            requires
                w >= 1,
                h >= 1,
        ;
        assert(w * h == w * (h - 1) + w) by (nonlinear_arith);
    }
    let mut y: usize = 0;
    while y < height
        invariant
            raw == raw_buf@,
            w == width,
            h == height,
            w > 0,
            h > 0,
            lp == uyvy_last_pair(w, h),
            w * (h - 1) >= 0,
            w * h == w * (h - 1) + w,
            lp >= w * (h - 1),
            raw_len == raw.len(),
            proc_len == proc_buf@.len(),
            2 * lp + 4 <= raw.len(),
            3 * lp + 6 <= proc_buf@.len(),
            proc_buf@.len() == old_proc.len(),
            y <= height,
            y * w <= w * h,
            uyvy_progress(proc_buf@, old_proc, raw, w, y as int, y * w, 0),
        decreases height - y,
    {
        proof {
            assert(y * w <= w * (h - 1)) by (nonlinear_arith)
                requires
                    y < h,
                    w > 0,
            ;
            assert((y + 1) * w == y * w + w) by (nonlinear_arith);
            assert(y * w >= 0) by (nonlinear_arith)
                requires
                    w > 0,
            ;
        }
        assert(w * y == y * w) by (nonlinear_arith);
        let row = width * y;
        let mut x: usize = 0;
        while x < width
            invariant
                raw == raw_buf@,
                w == width,
                h == height,
                w > 0,
                lp == uyvy_last_pair(w, h),
                raw_len == raw.len(),
                proc_len == proc_buf@.len(),
                2 * lp + 4 <= raw.len(),
                3 * lp + 6 <= proc_buf@.len(),
                proc_buf@.len() == old_proc.len(),
                y < height,
                row == y * w,
                row <= w * (h - 1),
                row >= 0,
                x % 2 == 0,
                x <= w + 1,
                uyvy_progress(proc_buf@, old_proc, raw, w, y as int, row as int, x as int),
            decreases w + 1 - x,
        {
            let p = row + x;
            assert(p <= lp) by {
                assert(x <= 2 * ((w - 1) / 2));
            }
            let ghost before = proc_buf@;
            write_uyvy_pair(raw_buf, proc_buf, p);
            proof {
                lemma_uyvy_pair_step(before, proc_buf@, old_proc, raw, w, y as int, row as int, x as int);
            }
            x = x + 2;
        }
        proof {
            assert(row + w == (y + 1) * w);
            if w % 2 == 1 {
                assert(x == w + 1);
            } else {
                assert(x == w);
            }
            assert(uyvy_done(row as int, x as int, w) == uyvy_done((y + 1) * w, 0, w));
        }
        y = y + 1;
    }
    proof {
        assert(h * w == w * h) by (nonlinear_arith);
        assert(y * w == w * h);
    }
}

} // verus!

verus! {

/// The top eight bits of a sample of at least eight bits are the sample
/// with the bits below them dropped: what `convert_packed_to_8bit` gives is
/// what `convert_packed_to_16bit` gives shifted right by `w - 8`.
pub proof fn lemma_top8_of_field(src: Seq<u8>, w: nat, i: nat)
    requires
        w >= 8,
    ensures
        packed_top8(src, w, i) == packed_field(src, w, i) / pow2((w - 8) as nat),
{
    let b = be_value(src, bytes_needed(w, i + 1)) as int;
    let p = pad_bits(w, i);
    let lo = (w - 8) as nat;
    let a = pow2(p) as int;
    let c = pow2(lo) as int;
    lemma_pow2_pos(p);
    lemma_pow2_pos(lo);
    lemma2_to64();
    lemma_pow2_adds(p, lo);
    lemma_pow2_adds(lo, 8);
    assert(lo + 8 == w);
    assert(pow2(w) == c * 256);
    assert((p + w - 8) as nat == p + lo);
    // Dividing by 2^p and then by 2^lo is dividing by 2^(p + lo).
    vstd::arithmetic::div_mod::lemma_div_denominator(b, a, c);
    let x = b / a;
    assert(x >= 0) by {
        vstd::arithmetic::div_mod::lemma_div_pos_is_pos(b, a);
    }
    // (x % (c * 256)) / c == (x / c) % 256.
    vstd::arithmetic::div_mod::lemma_mod_breakdown(x, c, 256);
    vstd::arithmetic::div_mod::lemma_mod_pos_bound(x, c);
    vstd::arithmetic::div_mod::lemma_mod_pos_bound(x / c, 256);
    vstd::arithmetic::div_mod::lemma_fundamental_div_mod_converse_div(
        x % (c * 256),
        c,
        (x / c) % 256,
        x % c,
    );
}


// ---------------------------------------------------------------------------
// What each colour of a converted pixel is made of.
// ---------------------------------------------------------------------------

/// The colour that the pattern `G R / B G` samples at column `c`, row `r`:
/// 0 for green (both even or both odd), 1 for red (even row, odd column),
/// 2 for blue (odd row, even column).
pub open spec fn bayer_site(c: int, r: int) -> int {
    if r % 2 == c % 2 {
        0
    } else if r % 2 == 0 {
        1
    } else {
        2
    }
}

/// `raw1` and `raw2` hold the same sample at every site of colour `k` of a
/// `w` by `h` image.
pub open spec fn same_at_sites(raw1: Seq<u8>, raw2: Seq<u8>, w: int, h: int, k: int) -> bool {
    forall|c: int, r: int|
        0 <= c < w && 0 <= r < h && bayer_site(c, r) == k ==> #[trigger] bayer_sample(raw1, w, h, c, r)
            == bayer_sample(raw2, w, h, c, r)
}

/// A neighbour one step away, read across the border, is a sample inside the
/// image of the same column and row parity.
proof fn lemma_reflected_sample(raw: Seq<u8>, w: int, h: int, x: int, y: int, dx: int, dy: int)
    requires
        w >= 2,
        h >= 2,
        0 <= x < w,
        0 <= y < h,
        -1 <= dx <= 1,
        -1 <= dy <= 1,
    ensures
        ({
            let c = if x + dx < 0 {
                1
            } else if x + dx >= w {
                w - 2
            } else {
                x + dx
            };
            let r = if y + dy < 0 {
                1
            } else if y + dy >= h {
                h - 2
            } else {
                y + dy
            };
            &&& 0 <= c < w
            &&& 0 <= r < h
            &&& c % 2 == (x + dx) % 2
            &&& r % 2 == (y + dy) % 2
            &&& bayer_sample(raw, w, h, x + dx, y + dy) == bayer_sample(raw, w, h, c, r)
        }),
{
}

/// Each colour of a converted pixel is interpolated from samples of that
/// colour alone: two raw images that agree on all red sites (even row, odd
/// column) give every pixel the same red, two that agree on all blue sites
/// (odd row, even column) the same blue, and two that agree on all green
/// sites the same green.
pub proof fn lemma_bayer_colour_sources(raw1: Seq<u8>, raw2: Seq<u8>, w: int, h: int, x: int, y: int)
    requires
        w >= 2,
        h >= 2,
        0 <= x < w,
        0 <= y < h,
        raw1.len() == w * h,
        raw2.len() == w * h,
    ensures
        same_at_sites(raw1, raw2, w, h, 1) ==> bayer_rgb(raw1, w, h, x, y).0 == bayer_rgb(
            raw2,
            w,
            h,
            x,
            y,
        ).0,
        same_at_sites(raw1, raw2, w, h, 0) ==> bayer_rgb(raw1, w, h, x, y).1 == bayer_rgb(
            raw2,
            w,
            h,
            x,
            y,
        ).1,
        same_at_sites(raw1, raw2, w, h, 2) ==> bayer_rgb(raw1, w, h, x, y).2 == bayer_rgb(
            raw2,
            w,
            h,
            x,
            y,
        ).2,
{
    assert forall|dx: int, dy: int| -1 <= dx <= 1 && -1 <= dy <= 1 implies {
        &&& (same_at_sites(raw1, raw2, w, h, bayer_site(x + dx, y + dy)) ==> #[trigger] bayer_sample(
            raw1,
            w,
            h,
            x + dx,
            y + dy,
        ) == bayer_sample(raw2, w, h, x + dx, y + dy))
    } by {
        lemma_reflected_sample(raw1, w, h, x, y, dx, dy);
        lemma_reflected_sample(raw2, w, h, x, y, dx, dy);
    }
    let p1 = |dx: int, dy: int| bayer_sample(raw1, w, h, x + dx, y + dy);
    let p2 = |dx: int, dy: int| bayer_sample(raw2, w, h, x + dx, y + dy);
    assert(bayer_site(x - 1, y) == bayer_site(x + 1, y));
    assert(bayer_site(x, y - 1) == bayer_site(x, y + 1));
    assert(bayer_site(x - 1, y - 1) == bayer_site(x + 1, y + 1));
    assert(bayer_site(x + 1, y - 1) == bayer_site(x + 1, y + 1));
    assert(bayer_site(x - 1, y + 1) == bayer_site(x + 1, y + 1));
    assert(p1(0, 0) == bayer_sample(raw1, w, h, x + 0, y + 0));
}

/// The colours of each pixel of the pattern `G R / B G`, in terms of the
/// raw samples around it (read across the border as the conversion does):
/// a red site keeps its sample as red and takes blue from its four diagonal
/// neighbours; a blue site keeps its sample as blue and takes red from its
/// diagonals; both take green from the four neighbours beside, above and
/// below. A green site keeps its sample as green; on a red row it takes red
/// from the samples left and right and blue from those above and below, on
/// a blue row red from those above and below and blue from those left and
/// right.
pub proof fn lemma_bayer_pixel_colours(raw: Seq<u8>, w: int, h: int, x: int, y: int)
    requires
        w >= 2,
        h >= 2,
        0 <= x < w,
        0 <= y < h,
        raw.len() == w * h,
    ensures
        ({
            let rgb = bayer_rgb(raw, w, h, x, y);
            let here = bayer_sample(raw, w, h, x, y);
            let left = bayer_sample(raw, w, h, x - 1, y);
            let right = bayer_sample(raw, w, h, x + 1, y);
            let above = bayer_sample(raw, w, h, x, y - 1);
            let below = bayer_sample(raw, w, h, x, y + 1);
            let diagonals = bayer_sample(raw, w, h, x - 1, y - 1) + bayer_sample(raw, w, h, x + 1, y - 1)
                + bayer_sample(raw, w, h, x - 1, y + 1) + bayer_sample(raw, w, h, x + 1, y + 1);
            let beside = left + right + above + below;
            &&& (y % 2 == 0 && x % 2 == 1) ==> (rgb.0 == here && rgb.1 == beside / 4 && rgb.2
                == diagonals / 4)
            &&& (y % 2 == 1 && x % 2 == 0) ==> (rgb.0 == diagonals / 4 && rgb.1 == beside / 4
                && rgb.2 == here)
            &&& (y % 2 == 0 && x % 2 == 0) ==> (rgb.0 == (left + right) / 2 && rgb.1 == here
                && rgb.2 == (above + below) / 2)
            &&& (y % 2 == 1 && x % 2 == 1) ==> (rgb.0 == (above + below) / 2 && rgb.1 == here
                && rgb.2 == (left + right) / 2)
        }),
{
    assert(bayer_sample(raw, w, h, x + 0, y + 0) == bayer_sample(raw, w, h, x, y));
    assert(bayer_sample(raw, w, h, x - 1, y + 0) == bayer_sample(raw, w, h, x - 1, y));
    assert(bayer_sample(raw, w, h, x + 1, y + 0) == bayer_sample(raw, w, h, x + 1, y));
    assert(bayer_sample(raw, w, h, x + 0, y - 1) == bayer_sample(raw, w, h, x, y - 1));
    assert(bayer_sample(raw, w, h, x + 0, y + 1) == bayer_sample(raw, w, h, x, y + 1));
}

/// The samples the conversion reads around a pixel: inside the image the
/// sample at `y * w + x`; one column past the left or the right border the
/// sample of the second or the second-to-last column of that row; one row
/// past the top or the bottom the sample of the second or the
/// second-to-last row.
pub proof fn lemma_bayer_border_samples(raw: Seq<u8>, w: int, h: int, x: int, y: int)
    requires
        w >= 2,
        h >= 2,
        0 <= x < w,
        0 <= y < h,
        raw.len() == w * h,
    ensures
        bayer_sample(raw, w, h, x, y) == raw[y * w + x],
        bayer_sample(raw, w, h, -1, y) == raw[y * w + 1],
        bayer_sample(raw, w, h, w, y) == raw[y * w + w - 2],
        bayer_sample(raw, w, h, x, -1) == raw[w + x],
        bayer_sample(raw, w, h, x, h) == raw[(h - 2) * w + x],
{
    assert((h - 2) * w == h * w - 2 * w) by (nonlinear_arith);
}

/// The pixel at which the UYVY pair holding pixel `q` starts: `q` itself at
/// an even column, the pixel before at an odd one.
pub open spec fn uyvy_pair_start(w: int, q: int) -> int {
    if (q % w) % 2 == 0 {
        q
    } else {
        q - 1
    }
}

/// Each pixel of a UYVY image takes its luma from its own byte `2q + 1`,
/// and its chroma from the pair it belongs to, which starts at byte
/// `2p` with `p` the pair's first pixel: byte `2p` is U, which drives blue
/// (with weight 2.018) and green (0.391), and byte `2p + 2` is V, which
/// drives red (1.596) and green (0.813).
pub proof fn lemma_uyvy_pixel_channels(raw: Seq<u8>, w: int, q: int)
    requires
        w > 0,
        q >= 0,
    ensures
        ({
            let p = uyvy_pair_start(w, q);
            let luma = trunc_div((raw[2 * q + 1] - 16) * 1164, 1000);
            let u = raw[2 * p] - 128;
            let v = raw[2 * p + 2] - 128;
            let rgb = uyvy_pixel(raw, w, q);
            &&& rgb.0 == clamp_byte(luma + trunc_div(v * 1596, 1000))
            &&& rgb.1 == clamp_byte(luma - trunc_div(v * 813, 1000) - trunc_div(u * 391, 1000))
            &&& rgb.2 == clamp_byte(luma + trunc_div(u * 2018, 1000))
        }),
{
}

/// U, the first byte of a UYVY pair, does not touch the red of its pixels,
/// and raising it never lowers their blue; V, the third byte, does not
/// touch their blue, and raising it never lowers their red.
pub proof fn lemma_uyvy_chroma_roles(raw: Seq<u8>, w: int, q: int, b: u8)
    requires
        w > 0,
        q >= 0,
        2 * q + 2 < raw.len(),
    ensures
        ({
            let p = uyvy_pair_start(w, q);
            let with_u = raw.update(2 * p, b);
            let with_v = raw.update(2 * p + 2, b);
            &&& uyvy_pixel(with_u, w, q).0 == uyvy_pixel(raw, w, q).0
            &&& raw[2 * p] <= b ==> uyvy_pixel(raw, w, q).2 <= uyvy_pixel(with_u, w, q).2
            &&& uyvy_pixel(with_v, w, q).2 == uyvy_pixel(raw, w, q).2
            &&& raw[2 * p + 2] <= b ==> uyvy_pixel(raw, w, q).0 <= uyvy_pixel(with_v, w, q).0
        }),
{
    let p = uyvy_pair_start(w, q);
    vstd::arithmetic::div_mod::lemma_fundamental_div_mod(q, w);
    vstd::arithmetic::div_mod::lemma_div_pos_is_pos(q, w);
    vstd::arithmetic::div_mod::lemma_mod_pos_bound(q, w);
    assert(w * (q / w) >= 0) by (nonlinear_arith)
        requires
            w > 0,
            q / w >= 0,
    ;
    assert(p >= 0 && p <= q);
    let with_u = raw.update(2 * p, b);
    let with_v = raw.update(2 * p + 2, b);
    lemma_uyvy_pixel_channels(raw, w, q);
    lemma_uyvy_pixel_channels(with_u, w, q);
    lemma_uyvy_pixel_channels(with_v, w, q);
    assert(with_u[2 * q + 1] == raw[2 * q + 1]);
    assert(with_v[2 * q + 1] == raw[2 * q + 1]);
    assert(with_u[2 * p + 2] == raw[2 * p + 2]);
    assert(with_v[2 * p] == raw[2 * p]);
    let u0 = (raw[2 * p] - 128) * 2018;
    let u1 = (b - 128) * 2018;
    let v0 = (raw[2 * p + 2] - 128) * 1596;
    let v1 = (b - 128) * 1596;
    lemma_trunc_div_monotonic(u0, u1);
    lemma_trunc_div_monotonic(v0, v1);
}

proof fn lemma_trunc_div_monotonic(a: int, b: int)
    ensures
        a <= b ==> trunc_div(a, 1000) <= trunc_div(b, 1000),
{
}

} // verus!

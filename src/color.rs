//! Conversion of packed YUYV 4:2:2 buffers into B,G,R pixel triplets.
//!
//! Every four input bytes `Y0 Cb Y1 Cr` describe two pixels that share one
//! chroma pair; they become six output bytes `B0 G0 R0 B1 G1 R1`. The BT.709
//! matrix is applied with its coefficients scaled by one million, so the
//! arithmetic is exact and rounding is to the nearest integer, halves away
//! from zero.

use vstd::arithmetic::div_mod::lemma_fundamental_div_mod_converse;
use vstd::prelude::*;

verus! {

/// Fixed-point scale of the colour matrix coefficients.
pub const SCALE: i64 = 1000000;

/// Red channel, scaled by `SCALE`: `Y' + 1.5748 Cr'`.
pub open spec fn red_scaled(y: u8, cb: u8, cr: u8) -> int {
    (y - 16) * 1000000 + 1574800 * (cr - 128)
}

/// Green channel, scaled by `SCALE`: `Y' - 0.187324 Cb' - 0.468124 Cr'`.
pub open spec fn green_scaled(y: u8, cb: u8, cr: u8) -> int {
    (y - 16) * 1000000 - 187324 * (cb - 128) - 468124 * (cr - 128)
}

/// Blue channel, scaled by `SCALE`: `Y' + 1.8556 Cb'`.
pub open spec fn blue_scaled(y: u8, cb: u8, cr: u8) -> int {
    (y - 16) * 1000000 + 1855600 * (cb - 128)
}

/// A scaled channel value clamped to `[0, 255]` and rounded to the nearest
/// integer (halves upward, which for non-negative values is away from zero).
pub open spec fn round_clamp(n: int) -> int {
    if n < 0 {
        0
    } else if n > 255 * 1000000 {
        255
    } else {
        (n + 500000) / 1000000
    }
}

/// Byte `i` of the B,G,R output for the packed 4:2:2 input `input`.
pub open spec fn bgr_byte(input: Seq<u8>, i: int) -> int {
    let k = i / 6;
    let j = i % 6;
    let y = if j < 3 { input[4 * k] } else { input[4 * k + 2] };
    let cb = input[4 * k + 1];
    let cr = input[4 * k + 3];
    if j % 3 == 0 {
        round_clamp(blue_scaled(y, cb, cr))
    } else if j % 3 == 1 {
        round_clamp(green_scaled(y, cb, cr))
    } else {
        round_clamp(red_scaled(y, cb, cr))
    }
}

/// Every converted channel lies in `[0, 255]`.
pub proof fn lemma_round_clamp_bounded(n: int)
    ensures
        0 <= round_clamp(n) <= 255,
{
}

/// Rounds and clamps a channel value scaled by `SCALE` into a byte.
pub fn clamp(val: i64) -> (r: u8)
    ensures
        r as int == round_clamp(val as int),
{
    if val < 0 {
        0
    } else if val > 255 * SCALE {
        255
    } else {
        ((val + 500000) / SCALE) as u8
    }
}

/// Converts one luma sample with its chroma pair into `(r, g, b)`.
pub fn ycbcr_to_rgb(y: u8, cb: u8, cr: u8) -> (r: (u8, u8, u8))
    ensures
        r.0 as int == round_clamp(red_scaled(y, cb, cr)),
        r.1 as int == round_clamp(green_scaled(y, cb, cr)),
        r.2 as int == round_clamp(blue_scaled(y, cb, cr)),
{
    let yy: i64 = y as i64 - 16;
    let cbb: i64 = cb as i64 - 128;
    let crr: i64 = cr as i64 - 128;
    let r = yy * SCALE + 1574800 * crr;
    let g = yy * SCALE - 187324 * cbb - 468124 * crr;
    let b = yy * SCALE + 1855600 * cbb;
    (clamp(r), clamp(g), clamp(b))
}

proof fn lemma_split6(k: int, j: int)
    requires
        0 <= j < 6,
    ensures
        (6 * k + j) / 6 == k,
        (6 * k + j) % 6 == j,
{
    lemma_fundamental_div_mod_converse(6 * k + j, 6, k, j);
}

/// Converts the four input bytes `ch` (`Y0 Cb Y1 Cr`) into the six output
/// bytes `out` (`B0 G0 R0 B1 G1 R1`).
pub fn convert_chunk(ch: &[u8], out: &mut [u8])
    requires
        ch@.len() == 4,
        old(out)@.len() == 6,
    ensures
        final(out)@.len() == 6,
        forall|j: int| 0 <= j < 6 ==> #[trigger] final(out)@[j] as int == bgr_byte(ch@, j),
{
    let y1 = ch[0];
    let cb = ch[1];
    let y2 = ch[2];
    let cr = ch[3];
    let (r, g, b) = ycbcr_to_rgb(y1, cb, cr);
    out[0] = b;
    out[1] = g;
    out[2] = r;
    let (r, g, b) = ycbcr_to_rgb(y2, cb, cr);
    out[3] = b;
    out[4] = g;
    out[5] = r;
    proof {
        assert forall|j: int| 0 <= j < 6 implies #[trigger] out@[j] as int == bgr_byte(ch@, j) by {
            lemma_split6(0, j);
        }
    }
}

/// Converts a packed YUYV 4:2:2 buffer into the B,G,R buffer `out_buf`,
/// which is one and a half times as long.
pub fn yuv422_to_rgb24(in_buf: &[u8], out_buf: &mut [u8])
    requires
        in_buf@.len() % 4 == 0,
        old(out_buf)@.len() * 2 == in_buf@.len() * 3,
    ensures
        final(out_buf)@.len() * 2 == in_buf@.len() * 3,
        forall|i: int|
            0 <= i < final(out_buf)@.len() ==> #[trigger] final(out_buf)@[i] as int == bgr_byte(
                in_buf@,
                i,
            ),
{
    let n = in_buf.len() / 4;
    let m = out_buf.len();
    let mut k: usize = 0;
    while k < n
        invariant
            n * 4 == in_buf@.len(),
            out_buf@.len() == n * 6,
            m == n * 6,
            k <= n,
            forall|i: int| 0 <= i < 6 * k ==> #[trigger] out_buf@[i] as int == bgr_byte(in_buf@, i),
        decreases n - k,
    {
        let y1 = in_buf[4 * k];
        let cb = in_buf[4 * k + 1];
        let y2 = in_buf[4 * k + 2];
        let cr = in_buf[4 * k + 3];
        let (r, g, b) = ycbcr_to_rgb(y1, cb, cr);
        out_buf[6 * k] = b;
        out_buf[6 * k + 1] = g;
        out_buf[6 * k + 2] = r;
        let (r, g, b) = ycbcr_to_rgb(y2, cb, cr);
        out_buf[6 * k + 3] = b;
        out_buf[6 * k + 4] = g;
        out_buf[6 * k + 5] = r;
        proof {
            assert forall|i: int| 0 <= i < 6 * (k + 1) implies #[trigger] out_buf@[i] as int
                == bgr_byte(in_buf@, i) by {
                if i >= 6 * k {
                    lemma_split6(k as int, i - 6 * k);
                }
            }
        }
        k = k + 1;
    }
}

} // verus!

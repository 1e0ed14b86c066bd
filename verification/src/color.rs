//! Colour reconstruction on the 10-bit Bayer plane: bilinear GBRG
//! demosaic, gray-world white balance and gamma correction.
//!
//! The CFA is GBRG: even rows alternate {G, B}, odd rows {R, G}.  Edge
//! handling clamps coordinates to the plane.  White balance and gamma work
//! on the interleaved 8-bit RGB plane; both stay in integer arithmetic
//! (gains are Q16 fixed-point, the gamma curve is a 256-entry table).

use vstd::prelude::*;
use vstd::arithmetic::div_mod::{
    lemma_div_is_ordered, lemma_div_pos_is_pos, lemma_fundamental_div_mod_converse,
};

verus! {

/// Clamped read of the Bayer plane: coordinates are pinned to
/// `[0, w-1] x [0, h-1]`.
pub open spec fn bayer_at(b: Seq<u16>, w: int, h: int, x: int, y: int) -> u16
    recommends
        w >= 1,
        h >= 1,
        b.len() == w * h,
{
    let xc = if x < 0 { 0 } else if x > w - 1 { w - 1 } else { x };
    let yc = if y < 0 { 0 } else if y > h - 1 { h - 1 } else { y };
    b[yc * w + xc]
}

/// Interpolated red value at `(x, y)` before clamping, per the GBRG cell
/// parity.
pub open spec fn demosaic_r(b: Seq<u16>, w: int, h: int, x: int, y: int) -> int {
    if y % 2 == 0 && x % 2 == 0 {
        (bayer_at(b, w, h, x, y - 1) + bayer_at(b, w, h, x, y + 1)) / 2
    } else if y % 2 == 0 && x % 2 == 1 {
        (bayer_at(b, w, h, x - 1, y - 1) + bayer_at(b, w, h, x + 1, y - 1) + bayer_at(
            b,
            w,
            h,
            x - 1,
            y + 1,
        ) + bayer_at(b, w, h, x + 1, y + 1)) / 4
    } else if y % 2 == 1 && x % 2 == 0 {
        bayer_at(b, w, h, x, y) as int
    } else {
        (bayer_at(b, w, h, x - 1, y) + bayer_at(b, w, h, x + 1, y)) / 2
    }
}

/// Interpolated green value at `(x, y)`.
pub open spec fn demosaic_g(b: Seq<u16>, w: int, h: int, x: int, y: int) -> int {
    if y % 2 == 0 && x % 2 == 0 {
        bayer_at(b, w, h, x, y) as int
    } else if y % 2 == 0 && x % 2 == 1 {
        (bayer_at(b, w, h, x - 1, y) + bayer_at(b, w, h, x + 1, y) + bayer_at(b, w, h, x, y - 1)
            + bayer_at(b, w, h, x, y + 1)) / 4
    } else if y % 2 == 1 && x % 2 == 0 {
        (bayer_at(b, w, h, x - 1, y) + bayer_at(b, w, h, x + 1, y) + bayer_at(b, w, h, x, y - 1)
            + bayer_at(b, w, h, x, y + 1)) / 4
    } else {
        bayer_at(b, w, h, x, y) as int
    }
}

/// Interpolated blue value at `(x, y)`.
pub open spec fn demosaic_b(b: Seq<u16>, w: int, h: int, x: int, y: int) -> int {
    if y % 2 == 0 && x % 2 == 0 {
        (bayer_at(b, w, h, x - 1, y) + bayer_at(b, w, h, x + 1, y)) / 2
    } else if y % 2 == 0 && x % 2 == 1 {
        bayer_at(b, w, h, x, y) as int
    } else if y % 2 == 1 && x % 2 == 0 {
        (bayer_at(b, w, h, x - 1, y - 1) + bayer_at(b, w, h, x + 1, y - 1) + bayer_at(
            b,
            w,
            h,
            x - 1,
            y + 1,
        ) + bayer_at(b, w, h, x + 1, y + 1)) / 4
    } else {
        (bayer_at(b, w, h, x, y - 1) + bayer_at(b, w, h, x, y + 1)) / 2
    }
}

/// The 8-bit value stored for channel `c` (0 red, 1 green, 2 blue) at
/// `(x, y)`: the interpolated 10-bit value clamped to 1023, then `>> 2`.
pub open spec fn demosaic_channel(b: Seq<u16>, w: int, h: int, x: int, y: int, c: int) -> int {
    let v = if c == 0 {
        demosaic_r(b, w, h, x, y)
    } else if c == 1 {
        demosaic_g(b, w, h, x, y)
    } else {
        demosaic_b(b, w, h, x, y)
    };
    let clamped = if v > 1023 { 1023 } else { v };
    clamped / 4
}

/// `demosaic_channel` read through a flat index of the interleaved RGB
/// plane (`i == 3 * (y * w + x) + c`).
pub open spec fn demosaiced_at(b: Seq<u16>, w: int, h: int, i: int) -> int
    recommends
        w >= 1,
        i >= 0,
{
    let p = i / 3;
    let c = i % 3;
    demosaic_channel(b, w, h, p % w, p / w, c)
}

/// At every pixel, the channel present in the CFA at that position comes
/// out as the raw sample itself, clamped and shifted to 8 bits.
pub proof fn lemma_demosaic_identity(b: Seq<u16>, w: int, h: int, x: int, y: int)
    requires
        w >= 1,
        h >= 1,
        b.len() == w * h,
        0 <= x < w,
        0 <= y < h,
    ensures
        y % 2 == 0 && x % 2 == 0 ==> demosaic_channel(b, w, h, x, y, 1) == (if b[y * w + x] > 1023 {
            1023int
        } else {
            b[y * w + x] as int
        }) / 4,
        y % 2 == 0 && x % 2 == 1 ==> demosaic_channel(b, w, h, x, y, 2) == (if b[y * w + x] > 1023 {
            1023int
        } else {
            b[y * w + x] as int
        }) / 4,
        y % 2 == 1 && x % 2 == 0 ==> demosaic_channel(b, w, h, x, y, 0) == (if b[y * w + x] > 1023 {
            1023int
        } else {
            b[y * w + x] as int
        }) / 4,
        y % 2 == 1 && x % 2 == 1 ==> demosaic_channel(b, w, h, x, y, 1) == (if b[y * w + x] > 1023 {
            1023int
        } else {
            b[y * w + x] as int
        }) / 4,
{
    assert(bayer_at(b, w, h, x, y) == b[y * w + x]);
}

/// Clamped Bayer plane read; coordinates may point one step outside the
/// plane and are pinned to its edge.
fn bayer_clamped(b: &Vec<u16>, w: usize, h: usize, x: i64, y: i64) -> (r: u16)
    requires
        1 <= w < 0x8000_0000,
        1 <= h < 0x8000_0000,
        b.len() == w * h,
    ensures
        r == bayer_at(b@, w as int, h as int, x as int, y as int),
{
    let xc: usize = if x < 0 {
        0
    } else if x > (w - 1) as i64 {
        w - 1
    } else {
        x as usize
    };
    let yc: usize = if y < 0 {
        0
    } else if y > (h - 1) as i64 {
        h - 1
    } else {
        y as usize
    };
    proof {
        assert(yc * w + xc < w * h) by (nonlinear_arith)
            requires 0 <= xc < w, 0 <= yc < h;
    }
    b[yc * w + xc]
}

/// Bilinear GBRG demosaic of the 10-bit plane `b` (`w * h`, row-major)
/// into the interleaved RGB plane `rgb` (`3 * w * h` bytes).
pub fn demosaic_bayer_plane(b: &Vec<u16>, w: usize, h: usize, rgb: &mut Vec<u8>)
    requires
        1 <= w < 0x8000_0000,
        1 <= h < 0x8000_0000,
        b.len() == w * h,
        old(rgb).len() == 3 * (w * h),
    ensures
        final(rgb).len() == old(rgb).len(),
        forall|i: int|
            0 <= i < final(rgb).len() ==> #[trigger] final(rgb)[i] == demosaiced_at(
                b@,
                w as int,
                h as int,
                i,
            ),
{
    let mut y: usize = 0;
    while y < h
        invariant
            1 <= w < 0x8000_0000,
            1 <= h < 0x8000_0000,
            b.len() == w * h,
            rgb.len() == 3 * (w * h),
            old(rgb).len() == 3 * (w * h),
            y <= h,
            forall|i: int|
                0 <= i < 3 * (y * w) ==> #[trigger] rgb[i] == demosaiced_at(
                    b@,
                    w as int,
                    h as int,
                    i,
                ),
        decreases h - y,
    {
        proof {
            assert(y * w + w <= h * w && h * w == w * h) by (nonlinear_arith)
                requires y < h, w >= 0;
        }
        let row: usize = y * w;
        let mut x: usize = 0;
        while x < w
            invariant
                1 <= w < 0x8000_0000,
                1 <= h < 0x8000_0000,
                b.len() == w * h,
                rgb.len() == 3 * (w * h),
                old(rgb).len() == 3 * (w * h),
                y < h,
                x <= w,
                row == y * w,
                row + w <= w * h,
                forall|i: int|
                    0 <= i < 3 * (y * w + x) ==> #[trigger] rgb[i] == demosaiced_at(
                        b@,
                        w as int,
                        h as int,
                        i,
                    ),
            decreases w - x,
        {
            let xi: i64 = x as i64;
            let yi: i64 = y as i64;

            let even_row = y % 2 == 0;
            let even_col = x % 2 == 0;

            let (r, g, bl): (u32, u32, u32) = if even_row && even_col {
                // Green site on a {G, B} row.
                (
                    (bayer_clamped(b, w, h, xi, yi - 1) as u32 + bayer_clamped(
                        b,
                        w,
                        h,
                        xi,
                        yi + 1,
                    ) as u32) / 2,
                    bayer_clamped(b, w, h, xi, yi) as u32,
                    (bayer_clamped(b, w, h, xi - 1, yi) as u32 + bayer_clamped(
                        b,
                        w,
                        h,
                        xi + 1,
                        yi,
                    ) as u32) / 2,
                )
            } else if even_row {
                // Blue site.
                (
                    (bayer_clamped(b, w, h, xi - 1, yi - 1) as u32 + bayer_clamped(
                        b,
                        w,
                        h,
                        xi + 1,
                        yi - 1,
                    ) as u32 + bayer_clamped(b, w, h, xi - 1, yi + 1) as u32 + bayer_clamped(
                        b,
                        w,
                        h,
                        xi + 1,
                        yi + 1,
                    ) as u32) / 4,
                    (bayer_clamped(b, w, h, xi - 1, yi) as u32 + bayer_clamped(
                        b,
                        w,
                        h,
                        xi + 1,
                        yi,
                    ) as u32 + bayer_clamped(b, w, h, xi, yi - 1) as u32 + bayer_clamped(
                        b,
                        w,
                        h,
                        xi,
                        yi + 1,
                    ) as u32) / 4,
                    bayer_clamped(b, w, h, xi, yi) as u32,
                )
            } else if even_col {
                // Red site.
                (
                    bayer_clamped(b, w, h, xi, yi) as u32,
                    (bayer_clamped(b, w, h, xi - 1, yi) as u32 + bayer_clamped(
                        b,
                        w,
                        h,
                        xi + 1,
                        yi,
                    ) as u32 + bayer_clamped(b, w, h, xi, yi - 1) as u32 + bayer_clamped(
                        b,
                        w,
                        h,
                        xi,
                        yi + 1,
                    ) as u32) / 4,
                    (bayer_clamped(b, w, h, xi - 1, yi - 1) as u32 + bayer_clamped(
                        b,
                        w,
                        h,
                        xi + 1,
                        yi - 1,
                    ) as u32 + bayer_clamped(b, w, h, xi - 1, yi + 1) as u32 + bayer_clamped(
                        b,
                        w,
                        h,
                        xi + 1,
                        yi + 1,
                    ) as u32) / 4,
                )
            } else {
                // Green site on an {R, G} row.
                (
                    (bayer_clamped(b, w, h, xi - 1, yi) as u32 + bayer_clamped(
                        b,
                        w,
                        h,
                        xi + 1,
                        yi,
                    ) as u32) / 2,
                    bayer_clamped(b, w, h, xi, yi) as u32,
                    (bayer_clamped(b, w, h, xi, yi - 1) as u32 + bayer_clamped(
                        b,
                        w,
                        h,
                        xi,
                        yi + 1,
                    ) as u32) / 2,
                )
            };

            let rc: u32 = if r > 1023 { 1023 } else { r };
            let gc: u32 = if g > 1023 { 1023 } else { g };
            let bc: u32 = if bl > 1023 { 1023 } else { bl };

            let p: usize = row + x;
            let idx: usize = 3 * p;
            rgb.set(idx, (rc / 4) as u8);
            rgb.set(idx + 1, (gc / 4) as u8);
            rgb.set(idx + 2, (bc / 4) as u8);

            proof {
                lemma_div_is_ordered(rc as int, 1023, 4);
                lemma_div_is_ordered(gc as int, 1023, 4);
                lemma_div_is_ordered(bc as int, 1023, 4);
                lemma_div_pos_is_pos(rc as int, 4);
                lemma_div_pos_is_pos(gc as int, 4);
                lemma_div_pos_is_pos(bc as int, 4);
                assert forall|i: int| 0 <= i < idx + 3 implies #[trigger] rgb[i] == demosaiced_at(
                    b@,
                    w as int,
                    h as int,
                    i,
                ) by {
                    if i >= idx {
                        lemma_fundamental_div_mod_converse(i, 3, p as int, i - idx);
                        lemma_fundamental_div_mod_converse(p as int, w as int, y as int, x as int);
                    }
                }
            }
            x = x + 1;
        }
        proof {
            assert(3 * (y * w + w) == 3 * ((y + 1) * w)) by (nonlinear_arith);
        }
        y = y + 1;
    }
    proof {
        assert(3 * (h * w) == 3 * (w * h)) by (nonlinear_arith);
    }
}

/// Sum of the first `n` samples of channel `c` of an interleaved RGB
/// plane.
pub open spec fn channel_sum_upto(rgb: Seq<u8>, c: int, n: int) -> int
    decreases n,
{
    if n <= 0 {
        0
    } else {
        channel_sum_upto(rgb, c, n - 1) + rgb[3 * (n - 1) + c]
    }
}

/// Sum of channel `c` over the whole plane.
pub open spec fn channel_sum(rgb: Seq<u8>, c: int) -> int {
    channel_sum_upto(rgb, c, rgb.len() as int / 3)
}

/// A channel sum over `n` pixels lies in `[0, 255 * n]`.
pub proof fn lemma_channel_sum_bounds(rgb: Seq<u8>, c: int, n: int)
    ensures
        0 <= channel_sum_upto(rgb, c, n),
        channel_sum_upto(rgb, c, n) <= 255 * n || n <= 0,
    decreases n,
{
    if n > 0 {
        lemma_channel_sum_bounds(rgb, c, n - 1);
    }
}

/// Q16 gray-world gain for one channel: `total / (3 * c_sum)` in Q16,
/// clamped to `[0.5, 2.0]` (`[32768, 131072]` in Q16).  A channel that
/// sums to zero gets the upper clamp, as an unbounded correction would.
pub open spec fn wb_gain_q16(c_sum: int, total: int) -> int {
    if c_sum <= 0 {
        131072
    } else {
        let g = (total * 65536) / (3 * c_sum);
        if g < 32768 {
            32768
        } else if g > 131072 {
            131072
        } else {
            g
        }
    }
}

/// The gray-world gain applied to channel `c` of a plane: the mean of the
/// three channel means over the channel's own mean (pixel counts cancel),
/// clamped.
pub open spec fn wb_gain_for(rgb: Seq<u8>, c: int) -> int {
    wb_gain_q16(
        channel_sum(rgb, c),
        channel_sum(rgb, 0) + channel_sum(rgb, 1) + channel_sum(rgb, 2),
    )
}

/// Every white-balance gain lies in `[0.5, 2.0]` (Q16).
pub proof fn lemma_wb_gain_bounds(c_sum: int, total: int)
    ensures
        32768 <= wb_gain_q16(c_sum, total) <= 131072,
{
}

/// One byte scaled by a Q16 gain, saturating at 255.
pub open spec fn wb_apply(px: u8, gain: int) -> u8
    recommends
        0 <= gain <= 131072,
{
    let v = (px as int) * gain / 65536;
    if v > 255 {
        255
    } else {
        v as u8
    }
}

/// Gray-world white balance over the interleaved RGB plane: every byte is
/// scaled by its channel's clamped Q16 gain, saturating at 255.
pub fn apply_white_balance_plane(rgb: &mut Vec<u8>)
    requires
        old(rgb).len() % 3 == 0,
        old(rgb).len() < 0x1_0000_0000,
    ensures
        final(rgb).len() == old(rgb).len(),
        forall|i: int|
            0 <= i < final(rgb).len() ==> #[trigger] final(rgb)[i] == wb_apply(
                old(rgb)[i],
                wb_gain_for(old(rgb)@, i % 3),
            ),
{
    let ghost prev = rgb@;
    let pixels: usize = rgb.len() / 3;
    proof {
        assert(3 * pixels == rgb.len());
        lemma_channel_sum_bounds(prev, 0, pixels as int);
        lemma_channel_sum_bounds(prev, 1, pixels as int);
        lemma_channel_sum_bounds(prev, 2, pixels as int);
    }

    let mut r_sum: u64 = 0;
    let mut g_sum: u64 = 0;
    let mut b_sum: u64 = 0;
    let mut p: usize = 0;
    while p < pixels
        invariant
            rgb.len() == prev.len(),
            rgb@ == prev,
            pixels == rgb.len() / 3,
            3 * pixels == rgb.len(),
            rgb.len() < 0x1_0000_0000,
            p <= pixels,
            r_sum == channel_sum_upto(prev, 0, p as int),
            g_sum == channel_sum_upto(prev, 1, p as int),
            b_sum == channel_sum_upto(prev, 2, p as int),
            r_sum <= 255 * p,
            g_sum <= 255 * p,
            b_sum <= 255 * p,
        decreases pixels - p,
    {
        r_sum = r_sum + rgb[3 * p] as u64;
        g_sum = g_sum + rgb[3 * p + 1] as u64;
        b_sum = b_sum + rgb[3 * p + 2] as u64;
        p = p + 1;
    }

    let total: u64 = r_sum + g_sum + b_sum;
    let r_gain: u64 = wb_gain(r_sum, total);
    let g_gain: u64 = wb_gain(g_sum, total);
    let b_gain: u64 = wb_gain(b_sum, total);
    proof {
        assert(channel_sum(prev, 0) == channel_sum_upto(prev, 0, pixels as int));
        assert(channel_sum(prev, 1) == channel_sum_upto(prev, 1, pixels as int));
        assert(channel_sum(prev, 2) == channel_sum_upto(prev, 2, pixels as int));
    }

    let mut q: usize = 0;
    while q < pixels
        invariant
            rgb.len() == prev.len(),
            pixels == prev.len() / 3,
            3 * pixels == prev.len(),
            q <= pixels,
            r_gain == wb_gain_for(prev, 0),
            g_gain == wb_gain_for(prev, 1),
            b_gain == wb_gain_for(prev, 2),
            r_gain <= 131072,
            g_gain <= 131072,
            b_gain <= 131072,
            forall|i: int|
                0 <= i < 3 * q ==> #[trigger] rgb[i] == wb_apply(prev[i], wb_gain_for(prev, i % 3)),
            forall|i: int| 3 * q <= i < rgb.len() ==> #[trigger] rgb[i] == prev[i],
        decreases pixels - q,
    {
        let i0: usize = 3 * q;
        let v0: u64 = rgb[i0] as u64;
        let v1: u64 = rgb[i0 + 1] as u64;
        let v2: u64 = rgb[i0 + 2] as u64;
        proof {
            assert(v0 * r_gain <= 255 * 131072 && v1 * g_gain <= 255 * 131072 && v2 * b_gain
                <= 255 * 131072) by (nonlinear_arith)
                requires
                    v0 <= 255 && v1 <= 255 && v2 <= 255,
                    r_gain <= 131072 && g_gain <= 131072 && b_gain <= 131072,
            ;
        }
        let s0: u64 = v0 * r_gain / 65536;
        let s1: u64 = v1 * g_gain / 65536;
        let s2: u64 = v2 * b_gain / 65536;
        rgb.set(i0, if s0 > 255 { 255 } else { s0 as u8 });
        rgb.set(i0 + 1, if s1 > 255 { 255 } else { s1 as u8 });
        rgb.set(i0 + 2, if s2 > 255 { 255 } else { s2 as u8 });
        proof {
            assert forall|i: int| 0 <= i < 3 * q + 3 implies #[trigger] rgb[i] == wb_apply(
                prev[i],
                wb_gain_for(prev, i % 3),
            ) by {
                if i >= 3 * q {
                    lemma_fundamental_div_mod_converse(i, 3, q as int, i - 3 * q);
                }
            }
        }
        q = q + 1;
    }
}

/// The Q16 gray-world gain, clamped to `[32768, 131072]`.
fn wb_gain(c_sum: u64, total: u64) -> (g: u64)
    requires
        c_sum <= total,
        total < 0x100_0000_0000,
    ensures
        g == wb_gain_q16(c_sum as int, total as int),
        32768 <= g <= 131072,
{
    if c_sum == 0 {
        131072
    } else {
        let raw: u64 = (total * 65536) / (3 * c_sum);
        proof {
            lemma_div_pos_is_pos((total * 65536) as int, (3 * c_sum) as int);
        }
        if raw < 32768 {
            32768
        } else if raw > 131072 {
            131072
        } else {
            raw
        }
    }
}

/// Gamma correction through a 256-entry lookup table: every byte of the
/// plane is replaced by its table entry.
pub fn apply_gamma_lut(rgb: &mut Vec<u8>, lut: &Vec<u8>)
    requires
        lut.len() == 256,
    ensures
        final(rgb).len() == old(rgb).len(),
        forall|i: int|
            0 <= i < final(rgb).len() ==> #[trigger] final(rgb)[i] == lut[old(rgb)[i] as int],
{
    let ghost prev = rgb@;
    let n: usize = rgb.len();
    let mut i: usize = 0;
    while i < n
        invariant
            lut.len() == 256,
            rgb.len() == n,
            prev.len() == n,
            i <= n,
            forall|j: int| 0 <= j < i ==> #[trigger] rgb[j] == lut[prev[j] as int],
            forall|j: int| i <= j < n ==> #[trigger] rgb[j] == prev[j],
        decreases n - i,
    {
        let v: u8 = rgb[i];
        rgb.set(i, lut[v as usize]);
        i = i + 1;
    }
}

} // verus!

//! Grayscale fast path: byte-4 extraction with row averaging, and the
//! fixed-point bilinear upscale of the native plane to the output size.
//!
//! The sensor embeds a clean 8-bit luminance sample in byte index 4 of each
//! 5-byte packed group.  Extraction averages vertically paired rows, halving
//! the vertical resolution; the upscale brings the native plane back to the
//! full output resolution with Q16 fixed-point arithmetic.

use vstd::prelude::*;
use vstd::arithmetic::div_mod::{
    lemma_div_by_multiple, lemma_div_is_ordered, lemma_div_pos_is_pos, lemma_fundamental_div_mod,
    lemma_fundamental_div_mod_converse, lemma_mod_division_less_than_divisor,
    lemma_mod_multiples_basic,
};
use vstd::arithmetic::mul::{
    lemma_mul_inequality, lemma_mul_is_distributive_add_other_way, lemma_mul_nonnegative,
};

verus! {

/// Byte `i` of `raw`, with indices past the end reading as zero.
pub open spec fn raw_byte_or_zero(raw: Seq<u8>, i: int) -> u8 {
    if 0 <= i < raw.len() {
        raw[i]
    } else {
        0
    }
}

/// The native grayscale value at flat position `j` of a `groups`-wide
/// plane: the average (integer division) of the byte-4 luminance samples of
/// the two source rows paired at output row `j / groups`.
pub open spec fn extracted_at(raw: Seq<u8>, stride: int, groups: int, j: int) -> u8
    recommends
        groups > 0,
        j >= 0,
{
    let oy = j / groups;
    let g = j % groups;
    let v0 = raw_byte_or_zero(raw, 2 * oy * stride + 5 * g + 4);
    let v1 = raw_byte_or_zero(raw, (2 * oy + 1) * stride + 5 * g + 4);
    ((v0 + v1) / 2) as u8
}

/// When both paired rows carry the same sample `c` for a group, the
/// averaged native value is exactly `c`.
pub proof fn lemma_extract_equal_rows(raw: Seq<u8>, stride: int, groups: int, oy: int, g: int, c: u8)
    requires
        groups > 0,
        0 <= oy,
        0 <= g < groups,
        raw_byte_or_zero(raw, 2 * oy * stride + 5 * g + 4) == c,
        raw_byte_or_zero(raw, (2 * oy + 1) * stride + 5 * g + 4) == c,
    ensures
        extracted_at(raw, stride, groups, oy * groups + g) == c,
{
    lemma_fundamental_div_mod_converse(oy * groups + g, groups, oy, g);
}

/// Fills the native grayscale plane (`groups * out_h` entries, row-major)
/// from the raw stream: output row `oy` averages the byte-4 samples of raw
/// rows `2*oy` and `2*oy + 1`; indices past the end of `raw` read as zero.
pub fn extract_grayscale_plane(
    raw: &Vec<u8>,
    stride: usize,
    groups: usize,
    out_h: usize,
    out: &mut Vec<u8>,
)
    requires
        groups >= 1,
        old(out).len() == groups * out_h,
        2 * out_h <= usize::MAX,
        2 * out_h * stride + 5 * groups + 5 <= usize::MAX,
    ensures
        final(out).len() == old(out).len(),
        forall|j: int|
            0 <= j < final(out).len() ==> #[trigger] final(out)[j] == extracted_at(
                raw@,
                stride as int,
                groups as int,
                j,
            ),
{
    let mut oy: usize = 0;
    while oy < out_h
        invariant
            groups >= 1,
            oy <= out_h,
            out.len() == groups * out_h,
            old(out).len() == groups * out_h,
            2 * out_h <= usize::MAX,
            2 * out_h * stride + 5 * groups + 5 <= usize::MAX,
            forall|j: int|
                0 <= j < oy * groups ==> #[trigger] out[j] == extracted_at(
                    raw@,
                    stride as int,
                    groups as int,
                    j,
                ),
        decreases out_h - oy,
    {
        proof {
            assert(2 * oy * stride + 2 * stride <= 2 * out_h * stride) by (nonlinear_arith)
                requires oy < out_h, stride >= 0;
            assert(oy * groups + groups <= out_h * groups) by (nonlinear_arith)
                requires oy < out_h, groups >= 0;
            assert(out_h * groups == groups * out_h) by (nonlinear_arith);
        }
        let row0_start: usize = (2 * oy) * stride;
        let row1_start: usize = row0_start + stride;
        let out_row_start: usize = oy * groups;

        let mut g: usize = 0;
        while g < groups
            invariant
                groups >= 1,
                oy < out_h,
                g <= groups,
                row0_start == 2 * oy * stride,
                row1_start == row0_start + stride,
                out_row_start == oy * groups,
                row0_start + 2 * stride <= 2 * out_h * stride,
                out_row_start + groups <= groups * out_h,
                out.len() == groups * out_h,
                old(out).len() == groups * out_h,
                2 * out_h * stride + 5 * groups + 5 <= usize::MAX,
                forall|j: int|
                    0 <= j < out_row_start + g ==> #[trigger] out[j] == extracted_at(
                        raw@,
                        stride as int,
                        groups as int,
                        j,
                    ),
            decreases groups - g,
        {
            let idx0: usize = row0_start + g * 5 + 4;
            let idx1: usize = row1_start + g * 5 + 4;

            let v0: u16 = if idx0 < raw.len() { raw[idx0] as u16 } else { 0 };
            let v1: u16 = if idx1 < raw.len() { raw[idx1] as u16 } else { 0 };

            let avg: u16 = (v0 + v1) / 2;
            out.set(out_row_start + g, avg as u8);

            proof {
                lemma_fundamental_div_mod_converse(
                    out_row_start + g,
                    groups as int,
                    oy as int,
                    g as int,
                );
                assert((2 * oy + 1) * stride == 2 * oy * stride + stride) by (nonlinear_arith);
            }
            g = g + 1;
        }
        proof {
            assert((oy + 1) * groups == oy * groups + groups) by (nonlinear_arith);
        }
        oy = oy + 1;
    }
    proof {
        assert(out_h * groups == groups * out_h) by (nonlinear_arith);
    }
}

/// The Q16 scale ratio `((src - 1) << 16) / (dst - 1)` of the bilinear
/// upscale.
pub open spec fn q16_ratio(src_dim: int, dst_dim: int) -> int
    recommends
        src_dim >= 1,
        dst_dim >= 2,
{
    ((src_dim - 1) * 65536) / (dst_dim - 1)
}

/// The bilinearly upscaled pixel at destination coordinates `(dx, dy)`:
/// the two integer source coordinates on each axis are clamped to the
/// source edge and the four samples are blended with the Q16 fractions.
pub open spec fn upscale_px(
    src: Seq<u8>,
    sw: int,
    sh: int,
    dw: int,
    dh: int,
    dx: int,
    dy: int,
) -> int
    recommends
        sw >= 1,
        sh >= 1,
        dw >= 2,
        dh >= 2,
        src.len() == sw * sh,
        0 <= dx < dw,
        0 <= dy < dh,
{
    let sx_fp = dx * q16_ratio(sw, dw);
    let sy_fp = dy * q16_ratio(sh, dh);
    let x0 = sx_fp / 65536;
    let x1 = if x0 + 1 < sw { x0 + 1 } else { sw - 1 };
    let xf = sx_fp % 65536;
    let y0 = sy_fp / 65536;
    let y1 = if y0 + 1 < sh { y0 + 1 } else { sh - 1 };
    let yf = sy_fp % 65536;
    let p00 = src[y0 * sw + x0] as int;
    let p01 = src[y0 * sw + x1] as int;
    let p10 = src[y1 * sw + x0] as int;
    let p11 = src[y1 * sw + x1] as int;
    let top = (p00 * (65536 - xf) + p01 * xf) / 65536;
    let bot = (p10 * (65536 - xf) + p11 * xf) / 65536;
    (top * (65536 - yf) + bot * yf) / 65536
}

/// `upscale_px` read through a flat destination index.
pub open spec fn upscaled_at(src: Seq<u8>, sw: int, sh: int, dw: int, dh: int, i: int) -> int
    recommends
        sw >= 1,
        sh >= 1,
        dw >= 2,
        dh >= 2,
        src.len() == sw * sh,
        0 <= i < dw * dh,
{
    upscale_px(src, sw, sh, dw, dh, i % dw, i / dw)
}

/// `d * (a / d) <= a` for nonnegative `a`.
proof fn lemma_div_mul_le(a: int, d: int)
    requires
        a >= 0,
        d > 0,
    ensures
        d * (a / d) <= a,
{
    lemma_fundamental_div_mod(a, d);
    lemma_mod_division_less_than_divisor(a, d);
}

/// A destination coordinate scaled by a Q16 ratio stays within the Q16
/// range of the source span.
proof fn lemma_scaled_coord_bound(dx: int, dd: int, s: int)
    requires
        0 <= dx <= dd,
        dd > 0,
        s >= 0,
    ensures
        0 <= dx * ((s * 65536) / dd) <= s * 65536,
{
    let r = (s * 65536) / dd;
    lemma_mul_nonnegative(s, 65536);
    lemma_div_pos_is_pos(s * 65536, dd);
    lemma_mul_nonnegative(dx, r);
    lemma_mul_inequality(dx, dd, r);
    lemma_div_mul_le(s * 65536, dd);
    assert(dd * r == dd * ((s * 65536) / dd));
}

/// A Q16 blend of two bytes is again a byte.
proof fn lemma_blend_byte(p: int, q: int, f: int)
    requires
        0 <= p <= 255,
        0 <= q <= 255,
        0 <= f <= 65536,
    ensures
        0 <= (p * (65536 - f) + q * f) / 65536 <= 255,
{
    lemma_mul_inequality(p, 255, 65536 - f);
    lemma_mul_inequality(q, 255, f);
    lemma_mul_nonnegative(p, 65536 - f);
    lemma_mul_nonnegative(q, f);
    assert(255 * (65536 - f) + 255 * f == 255 * 65536) by (nonlinear_arith);
    lemma_div_is_ordered(p * (65536 - f) + q * f, 255int * 65536, 65536);
    lemma_div_by_multiple(255, 65536);
    lemma_div_pos_is_pos(p * (65536 - f) + q * f, 65536);
}

/// Bilinear fixed-point upscale of `src` (`sw * sh`, row-major) into `out`
/// (`dw * dh`, row-major), matching `upscaled_at` at every pixel.
pub fn upscale_bilinear(
    src: &Vec<u8>,
    sw: usize,
    sh: usize,
    dw: usize,
    dh: usize,
    out: &mut Vec<u8>,
)
    requires
        1 <= sw <= 65535,
        1 <= sh <= 65535,
        2 <= dw,
        2 <= dh,
        src.len() == sw * sh,
        old(out).len() == dw * dh,
        dw * dh <= usize::MAX,
    ensures
        final(out).len() == old(out).len(),
        forall|i: int|
            0 <= i < final(out).len() ==> #[trigger] final(out)[i] == upscaled_at(
                src@,
                sw as int,
                sh as int,
                dw as int,
                dh as int,
                i,
            ),
{
    let x_ratio: usize = ((sw - 1) * 65536) / (dw - 1);
    let y_ratio: usize = ((sh - 1) * 65536) / (dh - 1);

    let mut dy: usize = 0;
    while dy < dh
        invariant
            1 <= sw <= 65535,
            1 <= sh <= 65535,
            2 <= dw,
            2 <= dh,
            src.len() == sw * sh,
            out.len() == dw * dh,
            old(out).len() == dw * dh,
            dw * dh <= usize::MAX,
            x_ratio == q16_ratio(sw as int, dw as int),
            y_ratio == q16_ratio(sh as int, dh as int),
            dy <= dh,
            forall|i: int|
                0 <= i < dy * dw ==> #[trigger] out[i] == upscaled_at(
                    src@,
                    sw as int,
                    sh as int,
                    dw as int,
                    dh as int,
                    i,
                ),
        decreases dh - dy,
    {
        proof {
            lemma_scaled_coord_bound(dy as int, (dh - 1) as int, (sh - 1) as int);
            assert((sh - 1) * 65536 + 65536 <= 65536 * 65536) by (nonlinear_arith)
                requires sh <= 65535;
            assert(dy * dw + dw <= dh * dw) by (nonlinear_arith)
                requires dy < dh, dw >= 0;
            assert(dh * dw == dw * dh) by (nonlinear_arith);
        }
        let sy_fp: usize = dy * y_ratio;
        let y0: usize = sy_fp / 65536;
        let y1: usize = if y0 + 1 < sh { y0 + 1 } else { sh - 1 };
        let yf: usize = sy_fp % 65536;
        let yi: usize = 65536 - yf;
        proof {
            lemma_div_is_ordered(sy_fp as int, (sh - 1) * 65536, 65536);
            lemma_div_by_multiple((sh - 1) as int, 65536);
            lemma_div_pos_is_pos(sy_fp as int, 65536);
            lemma_mod_division_less_than_divisor(sy_fp as int, 65536);
        }
        let dst_row: usize = dy * dw;

        let mut dx: usize = 0;
        while dx < dw
            invariant
                1 <= sw <= 65535,
                1 <= sh <= 65535,
                2 <= dw,
                2 <= dh,
                src.len() == sw * sh,
                out.len() == dw * dh,
                old(out).len() == dw * dh,
                dw * dh <= usize::MAX,
                x_ratio == q16_ratio(sw as int, dw as int),
                y_ratio == q16_ratio(sh as int, dh as int),
                dy < dh,
                dx <= dw,
                dst_row == dy * dw,
                dst_row + dw <= dw * dh,
                sy_fp == dy * y_ratio,
                y0 == sy_fp / 65536,
                y0 <= sh - 1,
                y1 == (if y0 + 1 < sh { y0 + 1 } else { sh - 1 }),
                y1 <= sh - 1,
                yf == sy_fp % 65536,
                yf < 65536,
                yi == 65536 - yf,
                forall|i: int|
                    0 <= i < dst_row + dx ==> #[trigger] out[i] == upscaled_at(
                        src@,
                        sw as int,
                        sh as int,
                        dw as int,
                        dh as int,
                        i,
                    ),
            decreases dw - dx,
        {
            proof {
                lemma_scaled_coord_bound(dx as int, (dw - 1) as int, (sw - 1) as int);
                assert((sw - 1) * 65536 + 65536 <= 65536 * 65536) by (nonlinear_arith)
                    requires sw <= 65535;
            }
            let sx_fp: usize = dx * x_ratio;
            let x0: usize = sx_fp / 65536;
            let x1: usize = if x0 + 1 < sw { x0 + 1 } else { sw - 1 };
            let xf: usize = sx_fp % 65536;
            let xi: usize = 65536 - xf;
            proof {
                lemma_div_is_ordered(sx_fp as int, (sw - 1) * 65536, 65536);
                lemma_div_by_multiple((sw - 1) as int, 65536);
                lemma_div_pos_is_pos(sx_fp as int, 65536);
                lemma_mod_division_less_than_divisor(sx_fp as int, 65536);
                assert(y0 * sw + x0 < sw * sh && y0 * sw + x1 < sw * sh && y1 * sw + x0 < sw * sh
                    && y1 * sw + x1 < sw * sh) by (nonlinear_arith)
                    requires
                        0 <= y0 <= sh - 1,
                        0 <= y1 <= sh - 1,
                        0 <= x0 <= sw - 1,
                        0 <= x1 <= sw - 1,
                        sw >= 1,
                        sh >= 1,
                ;
            }
            let p00: usize = src[y0 * sw + x0] as usize;
            let p01: usize = src[y0 * sw + x1] as usize;
            let p10: usize = src[y1 * sw + x0] as usize;
            let p11: usize = src[y1 * sw + x1] as usize;

            proof {
                lemma_blend_byte(p00 as int, p01 as int, xf as int);
                lemma_blend_byte(p10 as int, p11 as int, xf as int);
                lemma_mul_inequality(p00 as int, 255, xi as int);
                lemma_mul_inequality(p01 as int, 255, xf as int);
                lemma_mul_nonnegative(p00 as int, xi as int);
                lemma_mul_nonnegative(p01 as int, xf as int);
                lemma_mul_inequality(p10 as int, 255, xi as int);
                lemma_mul_inequality(p11 as int, 255, xf as int);
                lemma_mul_nonnegative(p10 as int, xi as int);
                lemma_mul_nonnegative(p11 as int, xf as int);
                assert(255 * (xi as int) + 255 * (xf as int) == 255 * 65536) by (nonlinear_arith)
                    requires xi == 65536 - xf;
            }
            let top: usize = (p00 * xi + p01 * xf) / 65536;
            let bot: usize = (p10 * xi + p11 * xf) / 65536;
            proof {
                lemma_blend_byte(top as int, bot as int, yf as int);
                lemma_mul_inequality(top as int, 255, yi as int);
                lemma_mul_inequality(bot as int, 255, yf as int);
                lemma_mul_nonnegative(top as int, yi as int);
                lemma_mul_nonnegative(bot as int, yf as int);
                assert(255 * (yi as int) + 255 * (yf as int) == 255 * 65536) by (nonlinear_arith)
                    requires yi == 65536 - yf;
            }
            let val: usize = (top * yi + bot * yf) / 65536;

            out.set(dst_row + dx, val as u8);
            proof {
                lemma_fundamental_div_mod_converse(
                    dst_row + dx,
                    dw as int,
                    dy as int,
                    dx as int,
                );
            }
            dx = dx + 1;
        }
        proof {
            assert((dy + 1) * dw == dy * dw + dw) by (nonlinear_arith);
        }
        dy = dy + 1;
    }
    proof {
        assert(dh * dw == dw * dh) by (nonlinear_arith);
    }
}

/// The upscaled image agrees with the source at the origin.
pub proof fn lemma_upscale_origin(src: Seq<u8>, sw: int, sh: int, dw: int, dh: int)
    requires
        sw >= 1,
        sh >= 1,
        dw >= 2,
        dh >= 2,
        src.len() == sw * sh,
    ensures
        upscale_px(src, sw, sh, dw, dh, 0, 0) == src[0],
{
    let p = src[0] as int;
    lemma_div_by_multiple(p, 65536);
    assert(p * 65536 / 65536 == p);
    assert((0int) / 65536 == 0 && (0int) % 65536 == 0) by (nonlinear_arith);
    assert(upscale_px(src, sw, sh, dw, dh, 0, 0) == (p * 65536 + 0) / 65536 * 65536 / 65536)
        by {
        assert(src[0 * sw + 0] == src[0]);
    };
}

/// The upscaled image agrees with the source at the far corner whenever
/// the Q16 ratios divide evenly (the destination span is an exact multiple
/// of the source span in Q16).
pub proof fn lemma_upscale_corner(src: Seq<u8>, sw: int, sh: int, dw: int, dh: int)
    requires
        sw >= 1,
        sh >= 1,
        dw >= 2,
        dh >= 2,
        src.len() == sw * sh,
        ((sw - 1) * 65536) % (dw - 1) == 0,
        ((sh - 1) * 65536) % (dh - 1) == 0,
    ensures
        upscale_px(src, sw, sh, dw, dh, dw - 1, dh - 1) == src[sw * sh - 1],
{
    lemma_fundamental_div_mod((sw - 1) * 65536, dw - 1);
    lemma_fundamental_div_mod((sh - 1) * 65536, dh - 1);
    let xr = q16_ratio(sw, dw);
    let yr = q16_ratio(sh, dh);
    assert((dw - 1) * xr == (sw - 1) * 65536);
    assert((dh - 1) * yr == (sh - 1) * 65536);
    assert((dw - 1) * xr == xr * (dw - 1)) by (nonlinear_arith);
    assert((dh - 1) * yr == yr * (dh - 1)) by (nonlinear_arith);
    lemma_div_by_multiple(sw - 1, 65536);
    lemma_div_by_multiple(sh - 1, 65536);
    lemma_mod_multiples_basic(sw - 1, 65536);
    lemma_mod_multiples_basic(sh - 1, 65536);
    let x0 = ((dw - 1) * xr) / 65536;
    let y0 = ((dh - 1) * yr) / 65536;
    assert(x0 == sw - 1);
    assert(y0 == sh - 1);
    let p = src[(sh - 1) * sw + (sw - 1)] as int;
    assert((sh - 1) * sw + (sw - 1) == sw * sh - 1) by (nonlinear_arith);
    lemma_div_by_multiple(p, 65536);
}

/// Raising every source pixel by a constant `k` (staying within a byte)
/// raises every upscaled pixel by exactly `k`.
pub proof fn lemma_upscale_monotone(
    src: Seq<u8>,
    src2: Seq<u8>,
    sw: int,
    sh: int,
    dw: int,
    dh: int,
    dx: int,
    dy: int,
    k: int,
)
    requires
        sw >= 1,
        sh >= 1,
        dw >= 2,
        dh >= 2,
        src.len() == sw * sh,
        src2.len() == sw * sh,
        0 <= k,
        forall|i: int| 0 <= i < src.len() ==> #[trigger] src[i] + k <= 255,
        forall|i: int| 0 <= i < src.len() ==> #[trigger] src2[i] == src[i] + k,
        0 <= dx < dw,
        0 <= dy < dh,
    ensures
        upscale_px(src2, sw, sh, dw, dh, dx, dy) == upscale_px(src, sw, sh, dw, dh, dx, dy) + k,
{
    lemma_scaled_coord_bound(dx, dw - 1, sw - 1);
    lemma_scaled_coord_bound(dy, dh - 1, sh - 1);
    let sx_fp = dx * q16_ratio(sw, dw);
    let sy_fp = dy * q16_ratio(sh, dh);
    lemma_div_is_ordered(sx_fp, (sw - 1) * 65536, 65536);
    lemma_div_is_ordered(sy_fp, (sh - 1) * 65536, 65536);
    lemma_div_by_multiple(sw - 1, 65536);
    lemma_div_by_multiple(sh - 1, 65536);
    lemma_div_pos_is_pos(sx_fp, 65536);
    lemma_div_pos_is_pos(sy_fp, 65536);
    lemma_mod_division_less_than_divisor(sx_fp, 65536);
    lemma_mod_division_less_than_divisor(sy_fp, 65536);
    let x0 = sx_fp / 65536;
    let x1 = if x0 + 1 < sw { x0 + 1 } else { sw - 1 };
    let xf = sx_fp % 65536;
    let y0 = sy_fp / 65536;
    let y1 = if y0 + 1 < sh { y0 + 1 } else { sh - 1 };
    let yf = sy_fp % 65536;
    assert(y0 * sw + x0 < sw * sh && y0 * sw + x1 < sw * sh && y1 * sw + x0 < sw * sh
        && y1 * sw + x1 < sw * sh && y0 * sw + x0 >= 0 && y0 * sw + x1 >= 0 && y1 * sw + x0 >= 0
        && y1 * sw + x1 >= 0) by (nonlinear_arith)
        requires
            0 <= y0 <= sh - 1,
            0 <= y1 <= sh - 1,
            0 <= x0 <= sw - 1,
            0 <= x1 <= sw - 1,
            sw >= 1,
            sh >= 1,
    ;
    let p00 = src[y0 * sw + x0] as int;
    let p01 = src[y0 * sw + x1] as int;
    let p10 = src[y1 * sw + x0] as int;
    let p11 = src[y1 * sw + x1] as int;
    lemma_shifted_blend(p00, p01, xf, k);
    lemma_shifted_blend(p10, p11, xf, k);
    let top = (p00 * (65536 - xf) + p01 * xf) / 65536;
    let bot = (p10 * (65536 - xf) + p11 * xf) / 65536;
    lemma_shifted_blend(top, bot, yf, k);
}

/// Shifting both blend inputs by `k` shifts the Q16 blend by `k`.
proof fn lemma_shifted_blend(p: int, q: int, f: int, k: int)
    requires
        0 <= f < 65536,
    ensures
        ((p + k) * (65536 - f) + (q + k) * f) / 65536 == (p * (65536 - f) + q * f) / 65536 + k,
{
    lemma_mul_is_distributive_add_other_way(65536 - f, p, k);
    lemma_mul_is_distributive_add_other_way(f, q, k);
    assert(k * (65536 - f) + k * f == k * 65536) by (nonlinear_arith);
    let a = p * (65536 - f) + q * f;
    lemma_fundamental_div_mod(a, 65536);
    lemma_mod_division_less_than_divisor(a, 65536);
    assert((a / 65536 + k) * 65536 == 65536 * (a / 65536) + k * 65536) by (nonlinear_arith);
    lemma_fundamental_div_mod_converse(a + k * 65536, 65536, a / 65536 + k, a % 65536);
}

} // verus!

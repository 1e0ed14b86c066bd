//! Overlay rendering: detection boxes and labels drawn onto a decoded
//! RGB frame.
//!
//! Every drawing operation is described pointwise: a predicate names the
//! painted pixel set, and the result plane equals the input with exactly
//! those pixels set to the operation's colour.  Labels use a built-in 5x7
//! bitmap font scaled by an integer factor; characters without a glyph
//! paint nothing but still advance the cursor.

use vstd::prelude::*;
use vstd::arithmetic::div_mod::{
    lemma_div_nonincreasing, lemma_div_pos_is_pos, lemma_fundamental_div_mod,
    lemma_fundamental_div_mod_converse, lemma_mod_division_less_than_divisor,
};
use vstd::arithmetic::mul::{lemma_mul_inequality, lemma_mul_nonnegative};
use vstd::utf8::encode_utf8;
use crate::config::CaptureError;
use crate::detector::Detection;
use crate::http::{dec_bytes, push_decimal, push_str_bytes};
use crate::jpeg::{copy_bytes, decode_jpeg_rgb, encode_jpeg_rgb8, jpeg_decoded_rgb, jpeg_rgb8_of};

verus! {

/// Column of the pixel that flat RGB index `i` belongs to.
pub open spec fn px_x(i: int, w: int) -> int {
    (i / 3) % w
}

/// Row of the pixel that flat RGB index `i` belongs to.
pub open spec fn px_y(i: int, w: int) -> int {
    (i / 3) / w
}

/// The colour component stored at channel `c` of an RGB triple.
pub open spec fn color_comp(color: (u8, u8, u8), c: int) -> u8 {
    if c == 0 {
        color.0
    } else if c == 1 {
        color.1
    } else {
        color.2
    }
}

/// An RGB plane with every pixel satisfying `pred` set to `color` and
/// every other pixel unchanged.
pub open spec fn painted(
    img: Seq<u8>,
    w: int,
    pred: spec_fn(int, int) -> bool,
    color: (u8, u8, u8),
) -> Seq<u8> {
    Seq::new(
        img.len(),
        |i: int| if pred(px_x(i, w), px_y(i, w)) {
            color_comp(color, i % 3)
        } else {
            img[i]
        },
    )
}

/// The border band of thickness `t` of the rectangle `[x1, x2] x [y1, y2]`:
/// `t` rows along the top and bottom edges and `t` columns along the left
/// and right edges (bands of a shallow or narrow box may reach past the
/// opposite side, as the edge-wise drawing does).
pub open spec fn on_rect_border(
    x1: int,
    y1: int,
    x2: int,
    y2: int,
    t: int,
    px: int,
    py: int,
) -> bool {
    ||| (x1 <= px <= x2 && (y1 <= py < y1 + t || y2 - t < py <= y2))
    ||| (y1 <= py <= y2 && (x1 <= px < x1 + t || x2 - t < px <= x2))
}

/// The filled rectangle of size `fw x fh` anchored at `(x0, y0)`.
pub open spec fn in_fill_rect(x0: int, y0: int, fw: int, fh: int, px: int, py: int) -> bool {
    x0 <= px < x0 + fw && y0 <= py < y0 + fh
}

/// The 5x7 bitmap of a font character, packed row-major into a `u64`
/// (bit `5 * row + col`).  Characters outside the font have no pixels.
pub open spec fn glyph_bits(c: u8) -> u64 {
    if c == 32 {  // ' '
        0x0
    } else if c == 37 {  // '%'
        0x672222273
    } else if c == 45 {  // '-'
        0xf8000
    } else if c == 46 {  // '.'
        0x18c000000
    } else if c == 48 {  // '0'
        0x3a33ae62e
    } else if c == 49 {  // '1'
        0x3884210c4
    } else if c == 50 {  // '2'
        0x7c444422e
    } else if c == 51 {  // '3'
        0x3a306422e
    } else if c == 52 {  // '4'
        0x211f4a988
    } else if c == 53 {  // '5'
        0x3a3083c3f
    } else if c == 54 {  // '6'
        0x3a317842e
    } else if c == 55 {  // '7'
        0x8422221f
    } else if c == 56 {  // '8'
        0x3a317462e
    } else if c == 57 {  // '9'
        0x3a10f462e
    } else if c == 95 {  // '_'
        0x7c0000000
    } else if c == 97 {  // 'a'
        0x7a3e83800
    } else if c == 98 {  // 'b'
        0x3e318bc21
    } else if c == 99 {  // 'c'
        0x38210b800
    } else if c == 100 {  // 'd'
        0x7a318fa10
    } else if c == 101 {  // 'e'
        0x383f8b800
    } else if c == 102 {  // 'f'
        0x8423884c
    } else if c == 103 {  // 'g'
        0x3a1e8c7c0
    } else if c == 104 {  // 'h'
        0x46318bc21
    } else if c == 105 {  // 'i'
        0x388421804
    } else if c == 107 {  // 'k'
        0x24a32a421
    } else if c == 108 {  // 'l'
        0x388421086
    } else if c == 109 {  // 'm'
        0x56b5aac00
    } else if c == 110 {  // 'n'
        0x46318bc00
    } else if c == 111 {  // 'o'
        0x3a318b800
    } else if c == 112 {  // 'p'
        0x42f8c5e0
    } else if c == 114 {  // 'r'
        0x4219b400
    } else if c == 115 {  // 's'
        0x3e0e0f800
    } else if c == 116 {  // 't'
        0x208423884
    } else if c == 117 {  // 'u'
        0x7a318c400
    } else if c == 118 {  // 'v'
        0x11518c400
    } else if c == 119 {  // 'w'
        0x2ab5ac400
    } else if c == 121 {  // 'y'
        0x44454620
    } else {
        0
    }
}

/// ASCII lowercasing, as applied to label text before glyph lookup.
pub open spec fn lower_ascii(c: u8) -> u8 {
    if 65 <= c <= 90 {
        (c + 32) as u8
    } else {
        c
    }
}

/// The pixels of one character cell anchored at `(gx, gy)`: the glyph
/// bitmap scaled by `scale`.
pub open spec fn glyph_covers(c: u8, gx: int, gy: int, scale: int, px: int, py: int) -> bool
    recommends
        scale >= 1,
{
    gx <= px < gx + 5 * scale && gy <= py < gy + 7 * scale && ((glyph_bits(lower_ascii(c)) >> ((5
        * ((py - gy) / scale) + (px - gx) / scale) as u64)) & 1) == 1
}

/// The pixels of a text run anchored at `(tx, ty)`: character `j` sits in
/// a cell 6 scaled columns wide, so cells never overlap.
pub open spec fn text_covers(text: Seq<u8>, tx: int, ty: int, scale: int, px: int, py: int) -> bool
    recommends
        scale >= 1,
{
    exists|j: int|
        0 <= j < text.len() && glyph_covers(text[j], tx + 6 * scale * j, ty, scale, px, py)
}

/// `x / d < a` whenever `x < d * a`.
proof fn lemma_div_lt(x: int, d: int, a: int)
    requires
        0 <= x,
        0 < d,
        x < d * a,
    ensures
        x / d < a,
{
    lemma_fundamental_div_mod(x, d);
    lemma_mod_division_less_than_divisor(x, d);
    if x / d >= a {
        lemma_mul_inequality(a, x / d, d);
        assert(a * d == d * a && (x / d) * d == d * (x / d)) by (nonlinear_arith);
    }
}

/// A pixel inside a character cell determines its cell index.
proof fn lemma_text_cell(tx: int, scale: int, j: int, px: int)
    requires
        scale >= 1,
        j >= 0,
        tx + 6 * scale * j <= px < tx + 6 * scale * j + 5 * scale,
    ensures
        (px - tx) / (6 * scale) == j,
{
    let r = px - tx - 6 * scale * j;
    assert(j * (6 * scale) == 6 * scale * j) by (nonlinear_arith);
    lemma_fundamental_div_mod_converse(px - tx, 6 * scale, j, r);
}

/// The drawing operations of the overlay, with their geometry.
pub enum PaintShape {
    /// Border band of thickness `t` of `[x1, x2] x [y1, y2]`.
    Border { x1: usize, y1: usize, x2: usize, y2: usize, t: usize },
    /// Filled `fw x fh` rectangle anchored at `(x0, y0)`.
    Fill { x0: usize, y0: usize, fw: usize, fh: usize },
    /// Text run anchored at `(tx, ty)`, scaled by `scale`.
    Text { tx: usize, ty: usize, scale: usize },
}

/// Geometry small enough that every coordinate computation stays exact.
pub open spec fn shape_wf(s: PaintShape) -> bool {
    match s {
        PaintShape::Border { x1, y1, x2, y2, t } => x1 < 131072 && y1 < 131072 && x2 < 131072
            && y2 < 131072 && 1 <= t <= 8,
        PaintShape::Fill { x0, y0, fw, fh } => x0 < 131072 && y0 < 131072 && fw < 131072 && fh
            < 131072,
        PaintShape::Text { tx, ty, scale } => tx < 131072 && ty < 131072 && 1 <= scale <= 16,
    }
}

/// The pixel set of a drawing operation (`label` is the text of a `Text`
/// operation and ignored otherwise).
pub open spec fn shape_covers_spec(s: PaintShape, label: Seq<u8>, px: int, py: int) -> bool {
    match s {
        PaintShape::Border { x1, y1, x2, y2, t } => on_rect_border(
            x1 as int,
            y1 as int,
            x2 as int,
            y2 as int,
            t as int,
            px,
            py,
        ),
        PaintShape::Fill { x0, y0, fw, fh } => in_fill_rect(
            x0 as int,
            y0 as int,
            fw as int,
            fh as int,
            px,
            py,
        ),
        PaintShape::Text { tx, ty, scale } => text_covers(
            label,
            tx as int,
            ty as int,
            scale as int,
            px,
            py,
        ),
    }
}

/// ASCII lowercasing of one byte.
fn lower_ascii_byte(c: u8) -> (r: u8)
    ensures
        r == lower_ascii(c),
{
    if 65 <= c && c <= 90 {
        c + 32
    } else {
        c
    }
}

/// The packed glyph bitmap of one byte.
fn glyph_bits_byte(c: u8) -> (r: u64)
    ensures
        r == glyph_bits(c),
{
    if c == 32 {  // ' '
        0x0
    } else if c == 37 {  // '%'
        0x672222273
    } else if c == 45 {  // '-'
        0xf8000
    } else if c == 46 {  // '.'
        0x18c000000
    } else if c == 48 {  // '0'
        0x3a33ae62e
    } else if c == 49 {  // '1'
        0x3884210c4
    } else if c == 50 {  // '2'
        0x7c444422e
    } else if c == 51 {  // '3'
        0x3a306422e
    } else if c == 52 {  // '4'
        0x211f4a988
    } else if c == 53 {  // '5'
        0x3a3083c3f
    } else if c == 54 {  // '6'
        0x3a317842e
    } else if c == 55 {  // '7'
        0x8422221f
    } else if c == 56 {  // '8'
        0x3a317462e
    } else if c == 57 {  // '9'
        0x3a10f462e
    } else if c == 95 {  // '_'
        0x7c0000000
    } else if c == 97 {  // 'a'
        0x7a3e83800
    } else if c == 98 {  // 'b'
        0x3e318bc21
    } else if c == 99 {  // 'c'
        0x38210b800
    } else if c == 100 {  // 'd'
        0x7a318fa10
    } else if c == 101 {  // 'e'
        0x383f8b800
    } else if c == 102 {  // 'f'
        0x8423884c
    } else if c == 103 {  // 'g'
        0x3a1e8c7c0
    } else if c == 104 {  // 'h'
        0x46318bc21
    } else if c == 105 {  // 'i'
        0x388421804
    } else if c == 107 {  // 'k'
        0x24a32a421
    } else if c == 108 {  // 'l'
        0x388421086
    } else if c == 109 {  // 'm'
        0x56b5aac00
    } else if c == 110 {  // 'n'
        0x46318bc00
    } else if c == 111 {  // 'o'
        0x3a318b800
    } else if c == 112 {  // 'p'
        0x42f8c5e0
    } else if c == 114 {  // 'r'
        0x4219b400
    } else if c == 115 {  // 's'
        0x3e0e0f800
    } else if c == 116 {  // 't'
        0x208423884
    } else if c == 117 {  // 'u'
        0x7a318c400
    } else if c == 118 {  // 'v'
        0x11518c400
    } else if c == 119 {  // 'w'
        0x2ab5ac400
    } else if c == 121 {  // 'y'
        0x44454620
    } else {
        0
    }
}

/// Whether pixel `(px, py)` belongs to a drawing operation.
fn shape_test(s: &PaintShape, label: &Vec<u8>, px: usize, py: usize) -> (b: bool)
    requires
        shape_wf(*s),
        px < 65536,
        py < 65536,
    ensures
        b == shape_covers_spec(*s, label@, px as int, py as int),
{
    match s {
        PaintShape::Border { x1, y1, x2, y2, t } => {
            let horiz = *x1 <= px && px <= *x2 && ((*y1 <= py && py < *y1 + *t) || (py + *t > *y2
                && py <= *y2));
            let vert = *y1 <= py && py <= *y2 && ((*x1 <= px && px < *x1 + *t) || (px + *t > *x2
                && px <= *x2));
            horiz || vert
        },
        PaintShape::Fill { x0, y0, fw, fh } => {
            *x0 <= px && px < *x0 + *fw && *y0 <= py && py < *y0 + *fh
        },
        PaintShape::Text { tx, ty, scale } => {
            let tx = *tx;
            let ty = *ty;
            let scale = *scale;
            if px < tx || py < ty || py >= ty + 7 * scale {
                proof {
                    assert forall|j: int| 0 <= j < label@.len() implies !glyph_covers(
                        label@[j],
                        tx + 6 * (scale as int) * j,
                        ty as int,
                        scale as int,
                        px as int,
                        py as int,
                    ) by {
                        lemma_mul_nonnegative(6 * (scale as int), j);
                    }
                }
                false
            } else {
                let j: usize = (px - tx) / (6 * scale);
                proof {
                    assert forall|j2: int|
                        0 <= j2 < label@.len() && glyph_covers(
                            label@[j2],
                            tx + 6 * (scale as int) * j2,
                            ty as int,
                            scale as int,
                            px as int,
                            py as int,
                        ) implies j2 == j by {
                        lemma_text_cell(tx as int, scale as int, j2, px as int);
                    }
                }
                if j >= label.len() {
                    false
                } else {
                    proof {
                        lemma_mul_nonnegative(6 * (scale as int), j as int);
                        lemma_div_nonincreasing((px - tx) as int, 6 * (scale as int));
                        assert(6 * (scale as int) * (j as int) <= 6 * 16 * 65536) by (
                        nonlinear_arith)
                            requires scale <= 16, j < 65536, 0 <= j;
                        lemma_fundamental_div_mod((px - tx) as int, 6 * (scale as int));
                        lemma_mod_division_less_than_divisor((px - tx) as int, 6 * (scale as int));
                        assert((6 * (scale as int)) * (j as int) == 6 * (scale as int) * (j as int))
                            by (nonlinear_arith);
                    }
                    let gx: usize = tx + 6 * scale * j;
                    if px >= gx + 5 * scale {
                        proof {
                            assert(!glyph_covers(
                                label@[j as int],
                                gx as int,
                                ty as int,
                                scale as int,
                                px as int,
                                py as int,
                            ));
                        }
                        false
                    } else {
                        let row: usize = (py - ty) / scale;
                        let col: usize = (px - gx) / scale;
                        proof {
                            lemma_div_lt((py - ty) as int, scale as int, 7);
                            lemma_div_lt((px - gx) as int, scale as int, 5);
                            lemma_mod_division_less_than_divisor((py - ty) as int, scale as int);
                            lemma_mod_division_less_than_divisor((px - gx) as int, scale as int);
                        }
                        let ch = lower_ascii_byte(label[j]);
                        let bit = (glyph_bits_byte(ch) >> ((5 * row + col) as u64)) & 1;
                        proof {
                            if bit == 1 {
                                assert(glyph_covers(
                                    label@[j as int],
                                    gx as int,
                                    ty as int,
                                    scale as int,
                                    px as int,
                                    py as int,
                                ));
                            }
                        }
                        bit == 1
                    }
                }
            }
        },
    }
}

/// Sets one pixel of the interleaved plane to a colour.
fn paint_px(img: &mut Vec<u8>, w: usize, h: usize, x: usize, y: usize, color: (u8, u8, u8))
    requires
        old(img).len() == 3 * (w * h),
        x < w,
        y < h,
    ensures
        final(img).len() == old(img).len(),
        forall|i: int|
            0 <= i < final(img).len() ==> #[trigger] final(img)[i] == (
            if px_x(i, w as int) == x && px_y(i, w as int) == y {
                color_comp(color, i % 3)
            } else {
                old(img)[i]
            }),
{
    let ghost prev = img@;
    proof {
        assert(y * w + x < w * h) by (nonlinear_arith)
            requires x < w, y < h;
    }
    let base: usize = 3 * (y * w + x);
    img.set(base, color.0);
    img.set(base + 1, color.1);
    img.set(base + 2, color.2);
    proof {
        assert forall|i: int| 0 <= i < img.len() implies #[trigger] img[i] == (
        if px_x(i, w as int) == x && px_y(i, w as int) == y {
            color_comp(color, i % 3)
        } else {
            prev[i]
        }) by {
            lemma_fundamental_div_mod(i, 3);
            lemma_mod_division_less_than_divisor(i, 3);
            lemma_fundamental_div_mod(i / 3, w as int);
            lemma_mod_division_less_than_divisor(i / 3, w as int);
            assert((w as int) * (y as int) == (y as int) * (w as int)) by (nonlinear_arith);
            if base <= i < base + 3 {
                lemma_fundamental_div_mod_converse(i, 3, (y * w + x) as int, i - base);
                lemma_fundamental_div_mod_converse((y * w + x) as int, w as int, y as int, x as int);
            }
        }
    }
}

/// Bounds of the pixel coordinates of a flat RGB index.
proof fn lemma_px_bounds(i: int, w: int, h: int)
    requires
        0 <= i < 3 * (w * h),
        w >= 1,
        h >= 1,
    ensures
        0 <= px_x(i, w) < w,
        0 <= px_y(i, w) < h,
        0 <= i % 3 < 3,
{
    lemma_fundamental_div_mod(i, 3);
    lemma_mod_division_less_than_divisor(i, 3);
    lemma_div_lt(i, 3, w * h);
    lemma_fundamental_div_mod(i / 3, w);
    lemma_mod_division_less_than_divisor(i / 3, w);
    lemma_div_lt(i / 3, w, h);
    lemma_div_pos_is_pos(i, 3);
    lemma_div_pos_is_pos(i / 3, w);
}

/// Paints every pixel of a drawing operation, visiting the rows
/// `[ry0, ry1)` and columns `[rx0, rx1)`, which must cover the
/// operation's pixel set within the image.
fn paint_shape(
    img: &mut Vec<u8>,
    w: usize,
    h: usize,
    s: &PaintShape,
    label: &Vec<u8>,
    rx0: usize,
    rx1: usize,
    ry0: usize,
    ry1: usize,
    color: (u8, u8, u8),
)
    requires
        old(img).len() == 3 * (w * h),
        shape_wf(*s),
        rx0 <= rx1 <= w,
        ry0 <= ry1 <= h,
        1 <= w < 65536,
        1 <= h < 65536,
        forall|px: int, py: int|
            0 <= px < w && 0 <= py < h && #[trigger] shape_covers_spec(*s, label@, px, py) ==> rx0
                <= px < rx1 && ry0 <= py < ry1,
    ensures
        final(img).len() == old(img).len(),
        final(img)@ == painted(
            old(img)@,
            w as int,
            |px: int, py: int| shape_covers_spec(*s, label@, px, py),
            color,
        ),
{
    let ghost prev = img@;
    let mut py: usize = ry0;
    proof {
        assert forall|i: int| 0 <= i < img.len() implies #[trigger] img[i] == (
        if shape_covers_spec(*s, label@, px_x(i, w as int), px_y(i, w as int)) && px_y(i, w as int)
            < py {
            color_comp(color, i % 3)
        } else {
            prev[i]
        }) by {
            lemma_px_bounds(i, w as int, h as int);
        }
    }
    while py < ry1
        invariant
            img.len() == 3 * (w * h),
            prev.len() == img.len(),
            shape_wf(*s),
            rx0 <= rx1 <= w,
            ry0 <= ry1 <= h,
            1 <= w < 65536,
            1 <= h < 65536,
            ry0 <= py <= ry1,
            forall|px2: int, py2: int|
                0 <= px2 < w && 0 <= py2 < h && #[trigger] shape_covers_spec(*s, label@, px2, py2)
                    ==> rx0 <= px2 < rx1 && ry0 <= py2 < ry1,
            forall|i: int|
                0 <= i < img.len() ==> #[trigger] img[i] == (
                if shape_covers_spec(*s, label@, px_x(i, w as int), px_y(i, w as int)) && px_y(
                    i,
                    w as int,
                ) < py {
                    color_comp(color, i % 3)
                } else {
                    prev[i]
                }),
        decreases ry1 - py,
    {
        let mut px: usize = rx0;
        proof {
            assert forall|i: int| 0 <= i < img.len() implies #[trigger] img[i] == (
            if shape_covers_spec(*s, label@, px_x(i, w as int), px_y(i, w as int)) && (px_y(
                i,
                w as int,
            ) < py || (px_y(i, w as int) == py && px_x(i, w as int) < px)) {
                color_comp(color, i % 3)
            } else {
                prev[i]
            }) by {
                lemma_px_bounds(i, w as int, h as int);
            }
        }
        while px < rx1
            invariant
                img.len() == 3 * (w * h),
                prev.len() == img.len(),
                shape_wf(*s),
                rx0 <= rx1 <= w,
                ry0 <= ry1 <= h,
                1 <= w < 65536,
                1 <= h < 65536,
                ry0 <= py < ry1,
                rx0 <= px <= rx1,
                forall|px2: int, py2: int|
                    0 <= px2 < w && 0 <= py2 < h && #[trigger] shape_covers_spec(
                        *s,
                        label@,
                        px2,
                        py2,
                    ) ==> rx0 <= px2 < rx1 && ry0 <= py2 < ry1,
                forall|i: int|
                    0 <= i < img.len() ==> #[trigger] img[i] == (
                    if shape_covers_spec(*s, label@, px_x(i, w as int), px_y(i, w as int)) && (px_y(
                        i,
                        w as int,
                    ) < py || (px_y(i, w as int) == py && px_x(i, w as int) < px)) {
                        color_comp(color, i % 3)
                    } else {
                        prev[i]
                    }),
            decreases rx1 - px,
        {
            let ghost mid = img@;
            let on = shape_test(s, label, px, py);
            if on {
                paint_px(img, w, h, px, py, color);
            }
            proof {
                assert forall|i: int| 0 <= i < img.len() implies #[trigger] img[i] == (
                if shape_covers_spec(*s, label@, px_x(i, w as int), px_y(i, w as int)) && (px_y(
                    i,
                    w as int,
                ) < py || (px_y(i, w as int) == py && px_x(i, w as int) < px + 1)) {
                    color_comp(color, i % 3)
                } else {
                    prev[i]
                }) by {
                    lemma_px_bounds(i, w as int, h as int);
                }
            }
            px = px + 1;
        }
        proof {
            assert forall|i: int| 0 <= i < img.len() implies #[trigger] img[i] == (
            if shape_covers_spec(*s, label@, px_x(i, w as int), px_y(i, w as int)) && px_y(
                i,
                w as int,
            ) < py + 1 {
                color_comp(color, i % 3)
            } else {
                prev[i]
            }) by {
                lemma_px_bounds(i, w as int, h as int);
            }
        }
        py = py + 1;
    }
    proof {
        assert forall|i: int| 0 <= i < img.len() implies #[trigger] img[i] == painted(
            prev,
            w as int,
            |px: int, py: int| shape_covers_spec(*s, label@, px, py),
            color,
        )[i] by {
            lemma_px_bounds(i, w as int, h as int);
        }
        assert(img@ =~= painted(
            prev,
            w as int,
            |px: int, py: int| shape_covers_spec(*s, label@, px, py),
            color,
        ));
    }
}

/// A low box corner clamped to the image: negative coordinates become 0.
pub open spec fn clamp_lo(v: i32) -> int {
    if v < 0 {
        0
    } else {
        v as int
    }
}

/// A high box corner clamped to the image, as the unsigned reading of the
/// coordinate capped at `limit - 1` (a negative value reads as a huge
/// unsigned one and caps).
pub open spec fn clamp_hi(v: i32, limit: int) -> int {
    if v < 0 {
        limit - 1
    } else if v > limit - 1 {
        limit - 1
    } else {
        v as int
    }
}

/// The label text of a detection: the class name, a space, the
/// confidence as a whole percentage (rounded half-up), and a percent
/// sign.
pub open spec fn label_spec(class: Seq<char>, milli: u32) -> Seq<u8> {
    encode_utf8(class) + seq![32u8] + dec_bytes(((milli as int) + 5) / 10) + seq![37u8]
}

/// Builds the label text of a detection.
pub fn make_label(class: &String, milli: u32) -> (l: Vec<u8>)
    ensures
        l@ == label_spec(class@, milli),
{
    let mut v: Vec<u8> = Vec::new();
    push_str_bytes(&mut v, class.as_str());
    v.push(32);
    push_decimal(&mut v, ((milli as u64) + 5) / 10);
    v.push(37);
    proof {
        assert(v@ =~= label_spec(class@, milli));
    }
    v
}

/// One detection drawn onto an RGB plane: the clamped box gets a border
/// band of thickness 4, a label background sits above the box (below it
/// when there is no room), and the label text is rasterized at scale 2.
/// A degenerate box paints nothing.
pub open spec fn annotate_one_spec(img: Seq<u8>, w: int, h: int, det: Detection) -> Seq<u8> {
    let x1 = clamp_lo(det.bbox.x1);
    let y1 = clamp_lo(det.bbox.y1);
    let x2 = clamp_hi(det.bbox.x2, w);
    let y2 = clamp_hi(det.bbox.y2, h);
    if x2 <= x1 || y2 <= y1 {
        img
    } else {
        let with_box = painted(
            img,
            w,
            |px: int, py: int| on_rect_border(x1, y1, x2, y2, 4, px, py),
            (255u8, 50u8, 50u8),
        );
        let label = label_spec(det.class@, det.confidence_milli);
        let l12 = (label.len() * 12) as int;
        let lw: int = if l12 < w - x1 {
            l12
        } else {
            w - x1
        };
        let ly = if y1 >= 32 {
            y1 - 32
        } else {
            y2 + 4
        };
        let with_bg = painted(
            with_box,
            w,
            |px: int, py: int| in_fill_rect(x1, ly, lw as int, 32, px, py),
            (255u8, 255u8, 255u8),
        );
        painted(
            with_bg,
            w,
            |px: int, py: int| text_covers(label, x1 + 4, ly + 4, 2, px, py),
            (200u8, 0u8, 0u8),
        )
    }
}

/// Draws the border band of a clamped box.
fn draw_box_border(img: &mut Vec<u8>, w: usize, h: usize, x1: usize, y1: usize, x2: usize, y2: usize)
    requires
        old(img).len() == 3 * (w * h),
        1 <= w < 65536,
        1 <= h < 65536,
        x1 < x2 < w,
        y1 < y2 < h,
    ensures
        final(img).len() == old(img).len(),
        final(img)@ == painted(
            old(img)@,
            w as int,
            |px: int, py: int| on_rect_border(x1 as int, y1 as int, x2 as int, y2 as int, 4, px, py),
            (255u8, 50u8, 50u8),
        ),
{
    let border = PaintShape::Border { x1, y1, x2, y2, t: 4 };
    let empty: Vec<u8> = Vec::new();
    let ry0: usize = if y2 < 3 {
        0
    } else if y2 - 3 < y1 {
        y2 - 3
    } else {
        y1
    };
    let ry1t: usize = if y1 + 3 > y2 {
        y1 + 3
    } else {
        y2
    };
    let ry1: usize = if ry1t > h - 1 {
        h
    } else {
        ry1t + 1
    };
    let rx0: usize = if x2 < 3 {
        0
    } else if x2 - 3 < x1 {
        x2 - 3
    } else {
        x1
    };
    let rx1t: usize = if x1 + 3 > x2 {
        x1 + 3
    } else {
        x2
    };
    let rx1: usize = if rx1t > w - 1 {
        w
    } else {
        rx1t + 1
    };
    paint_shape(img, w, h, &border, &empty, rx0, rx1, ry0, ry1, (255, 50, 50));
    proof {
        assert(img@ =~= painted(
            old(img)@,
            w as int,
            |px: int, py: int| on_rect_border(x1 as int, y1 as int, x2 as int, y2 as int, 4, px, py),
            (255u8, 50u8, 50u8),
        ));
    }
}

/// Draws the filled label background.
fn draw_label_bg(img: &mut Vec<u8>, w: usize, h: usize, x0: usize, ly: usize, lw: usize)
    requires
        old(img).len() == 3 * (w * h),
        1 <= w < 65536,
        1 <= h < 65536,
        x0 < w,
        lw <= w,
        ly < 131072,
    ensures
        final(img).len() == old(img).len(),
        final(img)@ == painted(
            old(img)@,
            w as int,
            |px: int, py: int| in_fill_rect(x0 as int, ly as int, lw as int, 32, px, py),
            (255u8, 255u8, 255u8),
        ),
{
    let fill = PaintShape::Fill { x0, y0: ly, fw: lw, fh: 32 };
    let empty: Vec<u8> = Vec::new();
    let ry0: usize = if ly > h {
        h
    } else {
        ly
    };
    let ry1: usize = if ly + 32 > h {
        h
    } else {
        ly + 32
    };
    paint_shape(img, w, h, &fill, &empty, x0, w, ry0, ry1, (255, 255, 255));
    proof {
        assert(img@ =~= painted(
            old(img)@,
            w as int,
            |px: int, py: int| in_fill_rect(x0 as int, ly as int, lw as int, 32, px, py),
            (255u8, 255u8, 255u8),
        ));
    }
}

/// Rasterizes the label text at scale 2.
fn draw_label_text(img: &mut Vec<u8>, w: usize, h: usize, label: &Vec<u8>, tx: usize, ty: usize)
    requires
        old(img).len() == 3 * (w * h),
        1 <= w < 65536,
        1 <= h < 65536,
        tx < 131072,
        ty < 131072,
    ensures
        final(img).len() == old(img).len(),
        final(img)@ == painted(
            old(img)@,
            w as int,
            |px: int, py: int| text_covers(label@, tx as int, ty as int, 2, px, py),
            (200u8, 0u8, 0u8),
        ),
{
    let text = PaintShape::Text { tx, ty, scale: 2 };
    let rx0: usize = if tx > w {
        w
    } else {
        tx
    };
    let ry0: usize = if ty > h {
        h
    } else {
        ty
    };
    let ry1: usize = if ty + 14 > h {
        h
    } else {
        ty + 14
    };
    proof {
        assert forall|px: int, py: int|
            0 <= px < w && 0 <= py < h && #[trigger] shape_covers_spec(text, label@, px, py)
                implies rx0 <= px < w && ry0 <= py < ry1 by {
            let j = choose|j: int|
                0 <= j < label@.len() && glyph_covers(
                    label@[j],
                    tx + 6 * 2 * j,
                    ty as int,
                    2,
                    px,
                    py,
                );
            assert(12 * j >= 0);
        }
    }
    paint_shape(img, w, h, &text, label, rx0, w, ry0, ry1, (200, 0, 0));
    proof {
        assert(img@ =~= painted(
            old(img)@,
            w as int,
            |px: int, py: int| text_covers(label@, tx as int, ty as int, 2, px, py),
            (200u8, 0u8, 0u8),
        ));
    }
}

/// Draws one detection onto the plane.
pub fn annotate_one(img: &mut Vec<u8>, w: usize, h: usize, det: &Detection)
    requires
        old(img).len() == 3 * (w * h),
        1 <= w < 65536,
        1 <= h < 65536,
    ensures
        final(img).len() == old(img).len(),
        final(img)@ == annotate_one_spec(old(img)@, w as int, h as int, *det),
{
    let ghost prev = img@;
    let bx1: usize = if det.bbox.x1 < 0 {
        0
    } else {
        det.bbox.x1 as usize
    };
    let by1: usize = if det.bbox.y1 < 0 {
        0
    } else {
        det.bbox.y1 as usize
    };
    let bx2: usize = if det.bbox.x2 < 0 {
        w - 1
    } else if det.bbox.x2 as usize > w - 1 {
        w - 1
    } else {
        det.bbox.x2 as usize
    };
    let by2: usize = if det.bbox.y2 < 0 {
        h - 1
    } else if det.bbox.y2 as usize > h - 1 {
        h - 1
    } else {
        det.bbox.y2 as usize
    };
    if bx2 <= bx1 || by2 <= by1 {
        return;
    }

    draw_box_border(img, w, h, bx1, by1, bx2, by2);

    let label = make_label(&det.class, det.confidence_milli);
    let lw: usize = if label.len() >= w {
        w - bx1
    } else if label.len() * 12 < w - bx1 {
        label.len() * 12
    } else {
        w - bx1
    };
    proof {
        assert(label@.len() >= w ==> label@.len() * 12 >= w - bx1) by (nonlinear_arith)
            requires w >= 1, bx1 >= 0, label@.len() >= 0;
    }
    let ly: usize = if by1 >= 32 {
        by1 - 32
    } else {
        by2 + 4
    };
    draw_label_bg(img, w, h, bx1, ly, lw);
    draw_label_text(img, w, h, &label, bx1 + 4, ly + 4);
    proof {
        assert(img@ == annotate_one_spec(prev, w as int, h as int, *det));
    }
}

/// A sequence of detections drawn in order onto an RGB plane.
pub open spec fn annotated_spec(img: Seq<u8>, w: int, h: int, dets: Seq<Detection>) -> Seq<u8>
    decreases dets.len(),
{
    if dets.len() == 0 {
        img
    } else {
        annotate_one_spec(annotated_spec(img, w, h, dets.drop_last()), w, h, dets.last())
    }
}

/// Draws every detection of a list, in order.
pub fn annotate_rgb(img: &mut Vec<u8>, w: usize, h: usize, dets: &Vec<Detection>)
    requires
        old(img).len() == 3 * (w * h),
        1 <= w < 65536,
        1 <= h < 65536,
    ensures
        final(img).len() == old(img).len(),
        final(img)@ == annotated_spec(old(img)@, w as int, h as int, dets@),
{
    let ghost prev = img@;
    let mut k: usize = 0;
    while k < dets.len()
        invariant
            img.len() == 3 * (w * h),
            1 <= w < 65536,
            1 <= h < 65536,
            k <= dets.len(),
            img@ == annotated_spec(prev, w as int, h as int, dets@.take(k as int)),
        decreases dets.len() - k,
    {
        annotate_one(img, w, h, &dets[k]);
        k = k + 1;
        proof {
            assert(dets@.take(k as int).drop_last() =~= dets@.take(k - 1));
            assert(dets@.take(k as int).last() == dets@[k - 1]);
        }
    }
    proof {
        assert(dets@.take(dets.len() as int) =~= dets@);
    }
}

/// Draws detection boxes and labels over a JPEG frame: the frame is
/// decoded to RGB, annotated, and re-encoded at quality 85.  An empty
/// detection list returns the original bytes unchanged; a frame that does
/// not decode, or decodes to an empty image, fails.
pub fn draw_detections(jpeg: &Vec<u8>, detections: &Vec<Detection>) -> (r: Result<
    Vec<u8>,
    CaptureError,
>)
    ensures
        detections.len() == 0 ==> (r matches Ok(o) && o@ == jpeg@),
        detections.len() > 0 && jpeg_decoded_rgb(jpeg@) is None ==> (r matches Err(e) && e
            == CaptureError::EncodeFailed),
        detections.len() > 0 ==> (jpeg_decoded_rgb(jpeg@) matches Some(d) ==> (
            if d.0 >= 1 && d.1 >= 1 {
                r matches Ok(o) && o@ == jpeg_rgb8_of(
                    annotated_spec(d.2, d.0, d.1, detections@),
                    d.0,
                    d.1,
                    85,
                )
            } else {
                r matches Err(e) && e == CaptureError::EncodeFailed
            }
        )),
{
    if detections.len() == 0 {
        return Ok(copy_bytes(jpeg));
    }
    match decode_jpeg_rgb(jpeg) {
        None => Err(CaptureError::EncodeFailed),
        Some((w, h, mut px)) => {
            if w == 0 || h == 0 {
                return Err(CaptureError::EncodeFailed);
            }
            annotate_rgb(&mut px, w as usize, h as usize, detections);
            let mut out: Vec<u8> = Vec::new();
            encode_jpeg_rgb8(&px, w, h, 85, &mut out);
            Ok(out)
        },
    }
}

} // verus!

//! Unpacking of CSI-2 packed 10-bit Bayer rows.
//!
//! Each 5-byte group `b0..b4` of a raw row carries four 10-bit pixels: the
//! high eight bits of pixel `k` are `b_k`, and its low two bits sit at bit
//! position `2k` of `b4`.

use vstd::prelude::*;
use vstd::arithmetic::div_mod::{
    lemma_fundamental_div_mod, lemma_fundamental_div_mod_converse,
    lemma_mod_division_less_than_divisor,
};

verus! {

/// The 10-bit pixel held by high byte `b` and the two bits of `b4` at
/// bit position `2k` (`k < 4` selects the pixel within its group).
pub open spec fn unpack_px(b: u8, b4: u8, k: u16) -> u16
    recommends
        k < 4,
{
    ((b as u16) << 2) | (((b4 as u16) >> (2 * k)) & 3)
}

/// The low-bits byte of a packed group whose four pixels are `v0..v3`:
/// bit position `2k` holds the low two bits of pixel `k`.
pub open spec fn pack_low_bits(v0: u16, v1: u16, v2: u16, v3: u16) -> u8 {
    ((v0 & 3) | ((v1 & 3) << 2) | ((v2 & 3) << 4) | ((v3 & 3) << 6)) as u8
}

/// What flat pixel `i` of the 10-bit plane holds after unpacking `raw`:
/// the unpacked group value where the whole 5-byte group lies inside `raw`,
/// and the previous plane contents `prev` where it runs past the end
/// (rows are truncated silently, tolerating sensor padding variations).
pub open spec fn unpacked_at(raw: Seq<u8>, stride: int, width: int, prev: Seq<u16>, i: int) -> u16
    recommends
        width > 0,
        0 <= i < prev.len(),
{
    let y = i / width;
    let col = i % width;
    let base = y * stride + 5 * (col / 4);
    if base + 4 < raw.len() {
        unpack_px(raw[base + (col % 4)], raw[base + 4], (col % 4) as u16)
    } else {
        prev[i]
    }
}

/// Every unpacked pixel is a 10-bit value.
pub proof fn lemma_unpack_px_bound(b: u8, b4: u8, k: u16)
    ensures
        unpack_px(b, b4, k) < 1024,
{
    assert(((b as u16) << 2) | (((b4 as u16) >> (2 * k)) & 3) < 1024) by (bit_vector);
}

/// Unpacking inverts packing: a group built from four 10-bit values
/// `v0..v3` (high bytes `v_k >> 2`, low bits gathered by `pack_low_bits`)
/// unpacks to exactly those values.
pub proof fn lemma_unpack_roundtrip(v0: u16, v1: u16, v2: u16, v3: u16)
    requires
        v0 < 1024,
        v1 < 1024,
        v2 < 1024,
        v3 < 1024,
    ensures
        unpack_px((v0 >> 2) as u8, pack_low_bits(v0, v1, v2, v3), 0) == v0,
        unpack_px((v1 >> 2) as u8, pack_low_bits(v0, v1, v2, v3), 1) == v1,
        unpack_px((v2 >> 2) as u8, pack_low_bits(v0, v1, v2, v3), 2) == v2,
        unpack_px((v3 >> 2) as u8, pack_low_bits(v0, v1, v2, v3), 3) == v3,
{
    assert({
        &&& unpack_px((v0 >> 2) as u8, pack_low_bits(v0, v1, v2, v3), 0) == v0
        &&& unpack_px((v1 >> 2) as u8, pack_low_bits(v0, v1, v2, v3), 1) == v1
        &&& unpack_px((v2 >> 2) as u8, pack_low_bits(v0, v1, v2, v3), 2) == v2
        &&& unpack_px((v3 >> 2) as u8, pack_low_bits(v0, v1, v2, v3), 3) == v3
    }) by (bit_vector)
        requires
            v0 < 1024 && v1 < 1024 && v2 < 1024 && v3 < 1024,
    ;
}

/// Unpacks the packed raw stream into the 10-bit plane `out`
/// (`width * height` entries, row-major).  A packed group that runs past
/// the end of `raw` leaves its four pixels untouched.
pub fn unpack_bayer10_plane(
    raw: &Vec<u8>,
    stride: usize,
    width: usize,
    height: usize,
    out: &mut Vec<u16>,
)
    requires
        width % 4 == 0,
        5 * (width / 4) <= stride,
        old(out).len() == width * height,
        stride * height + 5 <= usize::MAX,
    ensures
        final(out).len() == old(out).len(),
        forall|i: int|
            0 <= i < final(out).len() ==> #[trigger] final(out)[i] == unpacked_at(
                raw@,
                stride as int,
                width as int,
                old(out)@,
                i,
            ),
{
    let groups: usize = width / 4;
    let mut y: usize = 0;
    while y < height
        invariant
            width % 4 == 0,
            groups == width / 4,
            5 * groups <= stride,
            y <= height,
            out.len() == width * height,
            old(out).len() == width * height,
            stride * height + 5 <= usize::MAX,
            forall|i: int|
                0 <= i < y * width ==> #[trigger] out[i] == unpacked_at(
                    raw@,
                    stride as int,
                    width as int,
                    old(out)@,
                    i,
                ),
            forall|i: int| y * width <= i < out.len() ==> #[trigger] out[i] == old(out)[i],
        decreases height - y,
    {
        let ghost prev = old(out)@;
        proof {
            assert(y * stride + stride <= stride * height) by (nonlinear_arith)
                requires y < height, stride >= 0;
            assert(y * width + width <= width * height) by (nonlinear_arith)
                requires y < height, width >= 0;
        }
        let raw_row: usize = y * stride;
        let out_row: usize = y * width;
        let mut x: usize = 0;
        while x < groups
            invariant
                width % 4 == 0,
                groups == width / 4,
                5 * groups <= stride,
                y < height,
                x <= groups,
                raw_row == y * stride,
                out_row == y * width,
                raw_row + stride <= stride * height,
                out_row + width <= width * height,
                4 * groups == width,
                out.len() == width * height,
                old(out).len() == width * height,
                stride * height + 5 <= usize::MAX,
                forall|i: int|
                    0 <= i < out_row + 4 * x ==> #[trigger] out[i] == unpacked_at(
                        raw@,
                        stride as int,
                        width as int,
                        prev,
                        i,
                    ),
                forall|i: int|
                    out_row + 4 * x <= i < out.len() ==> #[trigger] out[i] == prev[i],
            ensures
                out.len() == width * height,
                forall|i: int|
                    0 <= i < out_row + width ==> #[trigger] out[i] == unpacked_at(
                        raw@,
                        stride as int,
                        width as int,
                        prev,
                        i,
                    ),
                forall|i: int|
                    out_row + width <= i < out.len() ==> #[trigger] out[i] == prev[i],
            decreases groups - x,
        {
            let i: usize = raw_row + x * 5;
            proof {
                assert(x * 5 + 5 <= groups * 5) by (nonlinear_arith)
                    requires x < groups;
            }
            if i + 4 >= raw.len() {
                // Later groups of this row start further right, so the whole
                // remainder of the row keeps its previous contents, which is
                // exactly what the truncation clause of `unpacked_at` says.
                proof {
                    assert forall|j: int| out_row + 4 * x <= j < out_row + width implies
                        #[trigger] out[j] == unpacked_at(
                            raw@,
                            stride as int,
                            width as int,
                            prev,
                            j,
                        ) by {
                        let col = j - out_row;
                        lemma_fundamental_div_mod_converse(j, width as int, y as int, col);
                        lemma_fundamental_div_mod(col, 4);
                        lemma_mod_division_less_than_divisor(col, 4);
                        assert(col / 4 >= x);
                        assert(stride * y == y * stride) by (nonlinear_arith);
                        assert((j / (width as int)) * (stride as int)
                            + 5 * ((j % (width as int)) / 4) + 4 >= raw_row + x * 5 + 4);
                    }
                }
                break;
            }
            let b0 = raw[i] as u16;
            let b1 = raw[i + 1] as u16;
            let b2 = raw[i + 2] as u16;
            let b3 = raw[i + 3] as u16;
            let b4 = raw[i + 4] as u16;

            let p0: u16 = (b0 << 2) | (b4 & 0x3);
            let p1: u16 = (b1 << 2) | ((b4 >> 2) & 0x3);
            let p2: u16 = (b2 << 2) | ((b4 >> 4) & 0x3);
            let p3: u16 = (b3 << 2) | ((b4 >> 6) & 0x3);

            let o: usize = out_row + x * 4;
            proof {
                assert(x * 4 + 4 <= groups * 4) by (nonlinear_arith)
                    requires x < groups;
            }
            out.set(o, p0);
            out.set(o + 1, p1);
            out.set(o + 2, p2);
            out.set(o + 3, p3);

            proof {
                assert(b4 >> (2 * 0u16) == b4) by (bit_vector);
                assert(b4 >> (2 * 1u16) == b4 >> 2) by (bit_vector);
                assert(b4 >> (2 * 2u16) == b4 >> 4) by (bit_vector);
                assert(b4 >> (2 * 3u16) == b4 >> 6) by (bit_vector);
                assert forall|i2: int| 0 <= i2 < out_row + 4 * x + 4 implies
                    #[trigger] out[i2] == unpacked_at(
                        raw@,
                        stride as int,
                        width as int,
                        prev,
                        i2,
                    ) by {
                    if i2 >= out_row + 4 * x {
                        let k = i2 - o;
                        let col = 4 * (x as int) + k;
                        lemma_fundamental_div_mod_converse(i2, width as int, y as int, col);
                        lemma_fundamental_div_mod_converse(col, 4, x as int, k);
                    }
                }
            }
            x = x + 1;
        }
        proof {
            assert((y + 1) * width == y * width + width) by (nonlinear_arith);
        }
        y = y + 1;
    }
    proof {
        assert(height * width == width * height) by (nonlinear_arith);
    }
}

} // verus!

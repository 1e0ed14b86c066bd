//! Unit tests for the raw unpacking, grayscale and colour pipeline stages.

use imx415_streamer::bayer::unpack_bayer10_plane;
use imx415_streamer::color::{apply_gamma_lut, apply_white_balance_plane, demosaic_bayer_plane};
use imx415_streamer::gray::{extract_grayscale_plane, upscale_bilinear};

/// Packs four 10-bit values into one 5-byte CSI-2 group.
fn pack_group(v: [u16; 4]) -> [u8; 5] {
    let mut b4 = 0u8;
    for (k, &v) in v.iter().enumerate() {
        b4 |= ((v & 3) as u8) << (2 * k);
    }
    [(v[0] >> 2) as u8, (v[1] >> 2) as u8, (v[2] >> 2) as u8, (v[3] >> 2) as u8, b4]
}

#[test]
fn unpack_round_trip_exact() {
    let cases = [
        [0u16, 1, 2, 3],
        [1023, 1022, 512, 511],
        [4, 256, 768, 1000],
        [1023, 0, 1023, 0],
        [341, 682, 85, 170],
    ];
    for v in cases {
        let raw: Vec<u8> = pack_group(v).to_vec();
        let mut out = vec![0u16; 4];
        unpack_bayer10_plane(&raw, 5, 4, 1, &mut out);
        assert_eq!(out, v.to_vec());
    }
}

#[test]
fn unpack_round_trip_all_values() {
    // Every 10-bit value round-trips through packing and unpacking.
    for v in 0u16..1024 {
        let raw: Vec<u8> = pack_group([v, v ^ 1023, v, v]).to_vec();
        let mut out = vec![0u16; 4];
        unpack_bayer10_plane(&raw, 5, 4, 1, &mut out);
        assert_eq!(out, vec![v, v ^ 1023, v, v]);
    }
}

#[test]
fn unpack_truncated_group_keeps_previous() {
    // Two groups per row, but the raw ends inside the second group: the
    // first unpacks, the second keeps the previous plane contents.
    let g = pack_group([100, 200, 300, 400]);
    let mut raw = g.to_vec();
    raw.extend_from_slice(&[9, 9, 9, 9]); // 4 of the 5 bytes of group 1
    let mut out = vec![7u16; 8];
    unpack_bayer10_plane(&raw, 10, 8, 1, &mut out);
    assert_eq!(&out[..4], &[100, 200, 300, 400]);
    assert_eq!(&out[4..], &[7, 7, 7, 7]);
}

#[test]
fn extract_byte4_equal_rows() {
    // When both paired rows carry the same byte-4 sample, the native
    // value is exactly that sample.
    let stride = 12usize;
    let groups = 2usize;
    let mut raw = vec![0u8; stride * 2];
    for g in 0..groups {
        raw[5 * g + 4] = 77;
        raw[stride + 5 * g + 4] = 77;
    }
    let mut out = vec![0u8; groups];
    extract_grayscale_plane(&raw, stride, groups, 1, &mut out);
    assert_eq!(out, vec![77, 77]);
}

#[test]
fn extract_row_averaging() {
    // The native value is the integer average of the two paired rows.
    let stride = 12usize;
    let groups = 2usize;
    let mut raw = vec![0u8; stride * 2];
    raw[4] = 10;
    raw[stride + 4] = 21; // (10 + 21) / 2 == 15
    raw[9] = 255;
    raw[stride + 9] = 0; // (255 + 0) / 2 == 127
    let mut out = vec![0u8; groups];
    extract_grayscale_plane(&raw, stride, groups, 1, &mut out);
    assert_eq!(out, vec![15, 127]);
}

#[test]
fn extract_missing_bytes_read_zero() {
    // Indices past the end of the raw read as zero.
    let raw: Vec<u8> = vec![];
    let mut out = vec![9u8; 4];
    extract_grayscale_plane(&raw, 12, 2, 2, &mut out);
    assert_eq!(out, vec![0, 0, 0, 0]);
}

#[test]
fn upscale_endpoints() {
    // 3x2 to 5x3: both Q16 ratios divide evenly, so the corners map
    // exactly onto the source corners.
    let src = vec![10u8, 20, 30, 40, 50, 60];
    let mut dst = vec![0u8; 5 * 3];
    upscale_bilinear(&src, 3, 2, 5, 3, &mut dst);
    assert_eq!(dst[0], 10);
    assert_eq!(dst[5 * 3 - 1], 60);
}

#[test]
fn upscale_constant_plane_stays_constant() {
    let src = vec![128u8; 6 * 4];
    let mut dst = vec![0u8; 24 * 16];
    upscale_bilinear(&src, 6, 4, 24, 16, &mut dst);
    assert!(dst.iter().all(|&p| p == 128));
}

#[test]
fn upscale_monotone_shift() {
    // Raising every source pixel by a constant raises every destination
    // pixel by exactly that constant.
    let src: Vec<u8> = (0..24u32).map(|i| (i * 7 % 200) as u8).collect();
    let shifted: Vec<u8> = src.iter().map(|&p| p + 20).collect();
    let mut a = vec![0u8; 12 * 8];
    let mut b = vec![0u8; 12 * 8];
    upscale_bilinear(&src, 6, 4, 12, 8, &mut a);
    upscale_bilinear(&shifted, 6, 4, 12, 8, &mut b);
    for i in 0..a.len() {
        assert_eq!(b[i] as i32 - a[i] as i32, 20);
    }
}

#[test]
fn demosaic_identity_at_cfa_sites() {
    // GBRG: the channel present in the CFA at a pixel equals the raw
    // sample shifted to 8 bits.
    let w = 4usize;
    let h = 4usize;
    let bayer: Vec<u16> = (0..(w * h) as u16).map(|i| i * 60).collect();
    let mut rgb = vec![0u8; 3 * w * h];
    demosaic_bayer_plane(&bayer, w, h, &mut rgb);
    for y in 0..h {
        for x in 0..w {
            let sample = bayer[y * w + x].min(1023) >> 2;
            let idx = 3 * (y * w + x);
            let channel = match (y & 1, x & 1) {
                (0, 0) => rgb[idx + 1], // green on a GB row
                (0, 1) => rgb[idx + 2], // blue
                (1, 0) => rgb[idx],     // red
                _ => rgb[idx + 1],      // green on an RG row
            };
            assert_eq!(channel as u16, sample, "at ({x},{y})");
        }
    }
}

#[test]
fn demosaic_constant_plane_is_constant_gray() {
    let w = 6usize;
    let h = 6usize;
    let bayer = vec![512u16; w * h];
    let mut rgb = vec![0u8; 3 * w * h];
    demosaic_bayer_plane(&bayer, w, h, &mut rgb);
    assert!(rgb.iter().all(|&p| p == 128));
}

#[test]
fn white_balance_clamped_gains_exact() {
    // Constant channels 10/200/40: the red and blue gains clamp at 2.0,
    // the green gain clamps at 0.5.
    let n = 30usize;
    let mut rgb = Vec::with_capacity(3 * n);
    for _ in 0..n {
        rgb.extend_from_slice(&[10u8, 200, 40]);
    }
    apply_white_balance_plane(&mut rgb);
    for p in 0..n {
        assert_eq!(rgb[3 * p], 20); // 10 * 2.0
        assert_eq!(rgb[3 * p + 1], 100); // 200 * 0.5
        assert_eq!(rgb[3 * p + 2], 80); // 40 * 2.0
    }
}

#[test]
fn white_balance_neutral_plane_unchanged() {
    let mut rgb = vec![90u8; 3 * 16];
    apply_white_balance_plane(&mut rgb);
    assert!(rgb.iter().all(|&p| p == 90));
}

#[test]
fn white_balance_saturates_at_255() {
    // A dominant-sum channel pulls a weak channel's gain to the clamp;
    // scaled bytes never exceed 255.
    let n = 12usize;
    let mut rgb = Vec::with_capacity(3 * n);
    for _ in 0..n {
        rgb.extend_from_slice(&[200u8, 10, 10]);
    }
    apply_white_balance_plane(&mut rgb);
    for p in 0..n {
        // total = 220n, red gain = 220/600 -> clamp 0.5; others clamp 2.0.
        assert_eq!(rgb[3 * p], 100);
        assert_eq!(rgb[3 * p + 1], 20);
        assert_eq!(rgb[3 * p + 2], 20);
    }
}

#[test]
fn gamma_lut_maps_every_byte() {
    let lut: Vec<u8> = (0..=255u16).map(|i| (255 - i) as u8).collect();
    let mut rgb: Vec<u8> = vec![0, 1, 2, 100, 200, 255];
    apply_gamma_lut(&mut rgb, &lut);
    assert_eq!(rgb, vec![255, 254, 253, 155, 55, 0]);
}

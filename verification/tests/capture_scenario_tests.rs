//! End-to-end scenarios through the capture pipeline at the full sensor
//! geometry, decoding the produced JPEGs to check the image content.

use imx415_streamer::capture::FrameCapture;
use imx415_streamer::config::{CaptureConfig, CaptureError, CaptureMode, HEIGHT, STRIDE, WIDTH};

fn identity_lut() -> Vec<u8> {
    (0..=255u16).map(|i| i as u8).collect()
}

fn test_config(mode: CaptureMode, wb: bool) -> CaptureConfig {
    CaptureConfig {
        device_path: String::new(),
        sensor_subdev: String::new(),
        mode,
        link_frequency: 0,
        jpeg_quality: 90,
        gamma_milli: 1000,
        enable_white_balance: wb,
        temp_dir: String::new(),
    }
}

fn decode_rgb(jpeg: &[u8]) -> image::RgbImage {
    let decoder = image::codecs::jpeg::JpegDecoder::new(std::io::Cursor::new(jpeg)).unwrap();
    image::DynamicImage::from_decoder(decoder).unwrap().to_rgb8()
}

#[test]
fn capture_config_default_values() {
    let c = CaptureConfig::default();
    assert_eq!(c.device_path, "/dev/video9");
    assert_eq!(c.sensor_subdev, "/dev/v4l-subdev3");
    assert_eq!(c.mode, CaptureMode::Color);
    assert_eq!(c.link_frequency, 0);
    assert_eq!(c.jpeg_quality, 90);
    assert_eq!(c.gamma_milli, 2200);
    assert!(c.enable_white_balance);
    assert_eq!(c.temp_dir, "/tmp/imx415_capture");
}

#[test]
fn with_config_rejects_wrong_lut_size() {
    let r = FrameCapture::with_config(test_config(CaptureMode::Color, true), vec![0u8; 100]);
    assert!(matches!(r, Err(CaptureError::BadRequest)));
}

#[test]
fn mode_switching() {
    let mut cap = FrameCapture::new().unwrap();
    assert_eq!(cap.mode(), CaptureMode::Color);
    cap.set_mode(CaptureMode::Grayscale);
    assert_eq!(cap.mode(), CaptureMode::Grayscale);
    assert_eq!(cap.config().mode, CaptureMode::Grayscale);
    assert!(cap.start_streaming().is_ok());
}

#[test]
fn grayscale_uniform_frame_decodes_uniform() {
    // Every raw byte 0x80: the byte-4 samples are all 128, so the
    // published frame decodes to a 3840x2160 plane of 128 (give or take
    // encoder roundoff).
    let mut cap =
        FrameCapture::with_config(test_config(CaptureMode::Grayscale, false), identity_lut())
            .unwrap();
    let raw = vec![0x80u8; STRIDE * HEIGHT];
    let jpeg = cap.process_raw_frame(&raw).unwrap();
    let img = decode_rgb(&jpeg);
    assert_eq!((img.width(), img.height()), (WIDTH as u32, HEIGHT as u32));
    for y in (0..HEIGHT as u32).step_by(97) {
        for x in (0..WIDTH as u32).step_by(101) {
            let p = img.get_pixel(x, y)[0] as i32;
            assert!((p - 128).abs() <= 1, "pixel at ({x},{y}) = {p}");
        }
    }
}

#[test]
fn grayscale_stripes_survive_the_round_trip() {
    // A vertical black/white stripe pattern at group granularity: the
    // decoded luma stays close to the upscaled plane the pipeline
    // computed (the JPEG round trip adds bounded noise).
    let mut cap =
        FrameCapture::with_config(test_config(CaptureMode::Grayscale, false), identity_lut())
            .unwrap();
    let mut raw = vec![0u8; STRIDE * HEIGHT];
    for y in 0..HEIGHT {
        for g in 0..(WIDTH / 4) {
            raw[y * STRIDE + 5 * g + 4] = if g % 2 == 0 { 0 } else { 255 };
        }
    }
    let jpeg = cap.process_raw_frame(&raw).unwrap();
    let img = decode_rgb(&jpeg);
    let mut sad = 0u64;
    let mut samples = 0u64;
    for y in (0..HEIGHT as u32).step_by(53) {
        for x in (0..WIDTH as u32).step_by(59) {
            let got = img.get_pixel(x, y)[0] as i64;
            let expected = cap.gray_output[y as usize * WIDTH + x as usize] as i64;
            sad += (got - expected).unsigned_abs();
            samples += 1;
        }
    }
    assert!(sad / samples <= 8, "mean absolute difference {}", sad / samples);
}

#[test]
fn color_constant_bayer_decodes_mid_gray() {
    // 10-bit value 512 everywhere, white balance off, unit gamma: the
    // frame decodes to a near-uniform mid gray.
    let mut cap =
        FrameCapture::with_config(test_config(CaptureMode::Color, false), identity_lut()).unwrap();
    let mut raw = vec![0u8; STRIDE * HEIGHT];
    for y in 0..HEIGHT {
        for g in 0..(WIDTH / 4) {
            let base = y * STRIDE + 5 * g;
            // 512 >> 2 == 128 in each data byte, low bits zero.
            raw[base] = 128;
            raw[base + 1] = 128;
            raw[base + 2] = 128;
            raw[base + 3] = 128;
        }
    }
    let jpeg = cap.process_raw_frame(&raw).unwrap();
    let img = decode_rgb(&jpeg);
    assert_eq!((img.width(), img.height()), (WIDTH as u32, HEIGHT as u32));
    for y in (0..HEIGHT as u32).step_by(211) {
        for x in (0..WIDTH as u32).step_by(223) {
            let p = img.get_pixel(x, y);
            for c in 0..3 {
                let v = p[c] as i32;
                assert!((v - 128).abs() <= 4, "pixel at ({x},{y}) = {:?}", p);
            }
        }
    }
}

#[test]
fn color_red_only_sites_decode_red() {
    // 1023 at the red CFA sites (odd rows, even columns), zero
    // elsewhere, white balance off, unit gamma: the decoded frame is
    // strongly red-dominant.
    let mut cap =
        FrameCapture::with_config(test_config(CaptureMode::Color, false), identity_lut()).unwrap();
    let mut raw = vec![0u8; STRIDE * HEIGHT];
    for y in (1..HEIGHT).step_by(2) {
        for g in 0..(WIDTH / 4) {
            let base = y * STRIDE + 5 * g;
            // Pixels 0 and 2 of the group are even columns: red sites.
            raw[base] = 255;
            raw[base + 2] = 255;
            raw[base + 4] = 0b0011_0011;
        }
    }
    let jpeg = cap.process_raw_frame(&raw).unwrap();
    let img = decode_rgb(&jpeg);
    let mut sums = [0u64; 3];
    let mut n = 0u64;
    for y in (0..HEIGHT as u32).step_by(211) {
        for x in (0..WIDTH as u32).step_by(223) {
            let p = img.get_pixel(x, y);
            for c in 0..3 {
                sums[c] += p[c] as u64;
            }
            n += 1;
        }
    }
    let (r, g, b) = (sums[0] / n, sums[1] / n, sums[2] / n);
    assert!(r > 200, "red mean {r}");
    assert!(g < 60, "green mean {g}");
    assert!(b < 60, "blue mean {b}");
}

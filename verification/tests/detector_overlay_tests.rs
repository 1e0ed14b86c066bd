//! Tests for the detector framing, the readiness check and the overlay
//! renderer.

use imx415_streamer::config::CaptureError;
use imx415_streamer::detector::{
    frame_detector_request, is_ready_line, BBox, Detection, DetectionResult,
};
use imx415_streamer::overlay::{annotate_rgb, draw_detections, make_label};

fn det(class: &str, milli: u32, x1: i32, y1: i32, x2: i32, y2: i32) -> Detection {
    Detection {
        class: class.to_string(),
        confidence_milli: milli,
        bbox: BBox { x1, y1, x2, y2 },
    }
}

#[test]
fn request_frame_little_endian_prefix() {
    let payload = vec![0xABu8; 300];
    let framed = frame_detector_request(&payload).unwrap();
    assert_eq!(&framed[..4], &[0x2C, 0x01, 0x00, 0x00]);
    assert_eq!(&framed[4..], &payload[..]);
}

#[test]
fn request_frame_empty_payload() {
    let framed = frame_detector_request(&vec![]).unwrap();
    assert_eq!(framed, vec![0, 0, 0, 0]);
}

#[test]
fn ready_line_detection() {
    assert!(is_ready_line("READY"));
    assert!(is_ready_line("READY\n"));
    assert!(is_ready_line("READY\r\n"));
    assert!(is_ready_line("  READY \t\n"));
    assert!(!is_ready_line("ready"));
    assert!(!is_ready_line("READY!"));
    assert!(!is_ready_line("NOT READY"));
    assert!(!is_ready_line(""));
    assert!(!is_ready_line("\n"));
}

#[test]
fn detection_result_default_is_empty() {
    let r = DetectionResult::default();
    assert!(r.width.is_none());
    assert!(r.height.is_none());
    assert!(r.detections.is_empty());
    assert!(r.error.is_none());
}

#[test]
fn label_text_with_rounded_percent() {
    assert_eq!(make_label(&"person".to_string(), 850), b"person 85%".to_vec());
    assert_eq!(make_label(&"cat".to_string(), 855), b"cat 86%".to_vec());
    assert_eq!(make_label(&"dog".to_string(), 0), b"dog 0%".to_vec());
    assert_eq!(make_label(&"bus".to_string(), 1000), b"bus 100%".to_vec());
}

#[test]
fn annotate_draws_border_background_and_leaves_rest() {
    let w = 20usize;
    let h = 20usize;
    let mut img = vec![0u8; 3 * w * h];
    let dets = vec![det("a", 500, 2, 2, 10, 10)];
    annotate_rgb(&mut img, w, h, &dets);

    let px = |x: usize, y: usize| {
        let i = 3 * (y * w + x);
        (img[i], img[i + 1], img[i + 2])
    };
    // Top-left border corner.
    assert_eq!(px(2, 2), (255, 50, 50));
    // Inside the box, outside the 4-pixel band: untouched.
    assert_eq!(px(6, 6), (0, 0, 0));
    // Outside the box and below the label area anchor: untouched.
    assert_eq!(px(0, 0), (0, 0, 0));
    // The label background sits below the box (no room above) and spans
    // to the right edge; (19, 19) is in it and carries no glyph pixel.
    assert_eq!(px(19, 19), (255, 255, 255));
}

#[test]
fn annotate_skips_degenerate_box() {
    let w = 16usize;
    let h = 16usize;
    let mut img = vec![7u8; 3 * w * h];
    let dets = vec![det("x", 900, 10, 10, 10, 12), det("y", 900, 5, 9, 9, 9)];
    annotate_rgb(&mut img, w, h, &dets);
    assert!(img.iter().all(|&p| p == 7));
}

#[test]
fn draw_detections_empty_list_returns_input() {
    let jpeg = vec![1u8, 2, 3, 4];
    let out = draw_detections(&jpeg, &vec![]).unwrap();
    assert_eq!(out, jpeg);
}

#[test]
fn draw_detections_rejects_undecodable_frame() {
    let not_jpeg = vec![0u8; 64];
    let dets = vec![det("a", 500, 1, 1, 5, 5)];
    assert_eq!(draw_detections(&not_jpeg, &dets), Err(CaptureError::EncodeFailed));
}

#[test]
fn draw_detections_annotates_real_jpeg() {
    // Encode a uniform dark image, annotate it, and check that the
    // border came out red-dominant after the lossy round trip.
    let w = 48u32;
    let h = 48u32;
    let pixels = vec![20u8; (3 * w * h) as usize];
    let mut jpeg = Vec::new();
    let mut enc = image::codecs::jpeg::JpegEncoder::new_with_quality(&mut jpeg, 90);
    enc.encode(&pixels, w, h, image::ExtendedColorType::Rgb8).unwrap();

    let dets = vec![det("a", 700, 8, 8, 40, 40)];
    let out = draw_detections(&jpeg, &dets).unwrap();
    assert_ne!(out, jpeg);

    let decoder = image::codecs::jpeg::JpegDecoder::new(std::io::Cursor::new(&out)).unwrap();
    let img = image::DynamicImage::from_decoder(decoder).unwrap().to_rgb8();
    assert_eq!((img.width(), img.height()), (w, h));
    let p = img.get_pixel(9, 9);
    assert!(p[0] > 150 && p[0] > p[1] + 50, "border pixel {:?}", p);
    let q = img.get_pixel(24, 24);
    assert!(q[0] < 80, "interior pixel {:?}", q);
}

#[test]
fn annotate_places_label_above_when_room() {
    // A box starting at row 40 has room for the 32-row label above it.
    let w = 60usize;
    let h = 60usize;
    let mut img = vec![0u8; 3 * w * h];
    let dets = vec![det("a", 500, 5, 40, 55, 50)];
    annotate_rgb(&mut img, w, h, &dets);
    let px = |x: usize, y: usize| {
        let i = 3 * (y * w + x);
        (img[i], img[i + 1], img[i + 2])
    };
    // Background row just above the box, clear of any glyph column.
    assert_eq!(px(5, 9), (255, 255, 255));
    // Above the label area: untouched.
    assert_eq!(px(5, 7), (0, 0, 0));
    // Border of the box itself.
    assert_eq!(px(5, 40), (255, 50, 50));
}

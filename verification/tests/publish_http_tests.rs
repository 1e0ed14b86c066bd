//! Tests for the frame slot, the tick decisions and the HTTP compute
//! helpers.

use imx415_streamer::config::{CaptureError, CaptureMode};
use imx415_streamer::http::{mjpeg_part, parse_mode, parse_toggle};
use imx415_streamer::publish::{should_submit_detection, FrameSlot};

#[test]
fn publish_advances_counter() {
    let mut slot = FrameSlot::new();
    assert_eq!(slot.counter(), 0);
    assert!(!slot.has_frame());
    assert!(slot.snapshot().is_none());

    slot.publish(vec![1, 2, 3]);
    assert_eq!(slot.counter(), 1);
    assert_eq!(slot.snapshot(), Some(vec![1, 2, 3]));

    slot.publish(vec![4]);
    assert_eq!(slot.counter(), 2);
    assert_eq!(slot.snapshot(), Some(vec![4]));
}

#[test]
fn counter_non_decreasing_across_ticks() {
    let mut slot = FrameSlot::new();
    let mut last = slot.counter();
    for i in 0..50u8 {
        let frame = if i % 4 == 0 { None } else { Some(vec![i]) };
        slot.apply_tick(frame);
        let now = slot.counter();
        assert!(now >= last);
        last = now;
    }
}

#[test]
fn failed_every_third_tick_advances_two_per_three() {
    // Raw acquisition failing on every third call: the counter advances
    // by exactly two per three ticks, and a frame stays available after
    // the first good one.
    let mut slot = FrameSlot::new();
    for tick in 0u64..300 {
        let encoded = if tick % 3 == 2 { None } else { Some(vec![tick as u8]) };
        slot.apply_tick(encoded);
        if tick >= 1 {
            assert!(slot.has_frame());
        }
        if (tick + 1) % 3 == 0 {
            assert_eq!(slot.counter(), 2 * (tick + 1) / 3);
        }
    }
    assert_eq!(slot.counter(), 200);
}

#[test]
fn concurrent_readers_see_equal_bytes() {
    // Two snapshots of the same slot state are byte-equal, and frame the
    // same MJPEG part.
    let mut slot = FrameSlot::new();
    slot.publish(vec![9, 8, 7, 6]);
    let a = slot.snapshot().unwrap();
    let b = slot.snapshot().unwrap();
    assert_eq!(a, b);
    assert_eq!(mjpeg_part(&a), mjpeg_part(&b));
}

#[test]
fn detection_cadence_every_third_frame() {
    assert!(should_submit_detection(true, 0));
    assert!(!should_submit_detection(true, 1));
    assert!(!should_submit_detection(true, 2));
    assert!(should_submit_detection(true, 3));
    assert!(!should_submit_detection(false, 0));
    assert!(!should_submit_detection(false, 3));
}

#[test]
fn mjpeg_part_exact_framing() {
    let payload = vec![1u8, 2, 3];
    let part = mjpeg_part(&payload);
    let mut expected =
        b"--frame\r\nContent-Type: image/jpeg\r\nContent-Length: 3\r\n\r\n".to_vec();
    expected.extend_from_slice(&[1, 2, 3]);
    expected.extend_from_slice(b"\r\n");
    assert_eq!(part, expected);
}

#[test]
fn mjpeg_part_multidigit_length() {
    let payload = vec![0u8; 1080];
    let part = mjpeg_part(&payload);
    let header = b"--frame\r\nContent-Type: image/jpeg\r\nContent-Length: 1080\r\n\r\n";
    assert_eq!(&part[..header.len()], &header[..]);
    assert_eq!(part.len(), header.len() + 1080 + 2);
    assert_eq!(&part[part.len() - 2..], b"\r\n");
}

#[test]
fn parse_mode_keywords() {
    assert_eq!(parse_mode("grayscale"), Ok(CaptureMode::Grayscale));
    assert_eq!(parse_mode("gray"), Ok(CaptureMode::Grayscale));
    assert_eq!(parse_mode("g"), Ok(CaptureMode::Grayscale));
    assert_eq!(parse_mode("color"), Ok(CaptureMode::Color));
    assert_eq!(parse_mode("c"), Ok(CaptureMode::Color));
    assert_eq!(parse_mode("sepia"), Err(CaptureError::BadRequest));
    assert_eq!(parse_mode(""), Err(CaptureError::BadRequest));
}

#[test]
fn parse_toggle_keywords() {
    for s in ["on", "true", "1", "enable", "enabled"] {
        assert_eq!(parse_toggle(s), Ok(true));
    }
    for s in ["off", "false", "0", "disable", "disabled"] {
        assert_eq!(parse_toggle(s), Ok(false));
    }
    assert_eq!(parse_toggle("maybe"), Err(CaptureError::BadRequest));
}

#[test]
fn mjpeg_part_empty_payload() {
    let part = mjpeg_part(&vec![]);
    assert_eq!(
        part,
        b"--frame\r\nContent-Type: image/jpeg\r\nContent-Length: 0\r\n\r\n\r\n".to_vec()
    );
}

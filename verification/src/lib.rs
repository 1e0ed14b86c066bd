//! Frame-processing pipeline and streaming core for a CSI-2-attached 4K
//! image sensor wired through a raw bypass path.
//!
//! The library turns packed 10-bit Bayer frames into JPEG images, either by
//! a full colour reconstruction (unpack, demosaic, gray-world white balance,
//! gamma) or by a grayscale shortcut (byte-4 extraction with row averaging,
//! then a fixed-point bilinear upscale), and publishes the encoded frames
//! through a single-writer slot with a monotonic counter.  Device I/O, the
//! HTTP surface and the detector subprocess live outside the library; they
//! hand raw bytes in and take encoded frames out.

pub mod bayer;
pub mod capture;
pub mod color;
pub mod config;
pub mod detector;
pub mod gray;
pub mod http;
pub mod jpeg;
pub mod overlay;
pub mod publish;

//! Capture configuration: rendering mode, sensor geometry and the
//! per-capture settings that the pipeline reads.

use vstd::prelude::*;

verus! {

/// Output width of every frame, in pixels.
pub const WIDTH: usize = 3840;
/// Output height of every frame, in pixels.
pub const HEIGHT: usize = 2160;
/// Bytes per raw row as delivered by the sensor (includes alignment padding).
pub const STRIDE: usize = 4864;
/// Number of 5-byte packed groups in one raw row (`WIDTH / 4`).
pub const GROUPS_PER_ROW: usize = 960;

/// Rendering mode for captured frames.
#[derive(Clone, Copy, Debug, PartialEq, Eq, Structural)]
pub enum CaptureMode {
    /// 4K grayscale via byte-4 extraction with row averaging.
    Grayscale,
    /// 4K colour via 10-bit Bayer demosaicing.
    Color,
}

/// Error kinds surfaced by the pipeline.
#[derive(Clone, Copy, Debug, PartialEq, Eq, Structural)]
pub enum CaptureError {
    /// The capture device could not be opened or produced no data.
    DeviceUnavailable,
    /// The raw buffer was shorter than a full frame.
    RawShort,
    /// The JPEG encoder rejected the frame.
    EncodeFailed,
    /// The detector subprocess could not be started.
    DetectorSpawnFailed,
    /// The detector broke its framing protocol.
    DetectorProtocol,
    /// A request named an unknown mode or toggle value.
    BadRequest,
}

/// Immutable per-capture settings.
///
/// The gamma exponent is carried in thousandths (`gamma_milli == 2200`
/// stands for a curve exponent of 2.2); the executable curve itself is a
/// 256-entry lookup table held by the capture instance, so that the pipeline
/// stays in integer arithmetic.
pub struct CaptureConfig {
    pub device_path: String,
    pub sensor_subdev: String,
    pub mode: CaptureMode,
    pub link_frequency: u32,
    pub jpeg_quality: u8,
    pub gamma_milli: u32,
    pub enable_white_balance: bool,
    pub temp_dir: String,
}

impl CaptureConfig {
    /// The settings a configuration must satisfy before the pipeline runs.
    pub open spec fn wf(self) -> bool {
        &&& 1 <= self.jpeg_quality <= 100
        &&& self.gamma_milli > 0
    }
}

impl Default for CaptureConfig {
    /// The stock configuration: colour mode, quality 90, gamma 2.2,
    /// white balance on.
    fn default() -> (c: CaptureConfig)
        ensures
            c.wf(),
            c.device_path@ == "/dev/video9"@,
            c.sensor_subdev@ == "/dev/v4l-subdev3"@,
            c.mode == CaptureMode::Color,
            c.link_frequency == 0,
            c.jpeg_quality == 90,
            c.gamma_milli == 2200,
            c.enable_white_balance,
            c.temp_dir@ == "/tmp/imx415_capture"@,
    {
        CaptureConfig {
            device_path: "/dev/video9".to_string(),
            sensor_subdev: "/dev/v4l-subdev3".to_string(),
            mode: CaptureMode::Color,
            link_frequency: 0,
            jpeg_quality: 90,
            gamma_milli: 2200,
            enable_white_balance: true,
            temp_dir: "/tmp/imx415_capture".to_string(),
        }
    }
}

} // verus!

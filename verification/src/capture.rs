//! The capture instance: owns the scratch planes, dispatches a raw frame
//! through the grayscale or colour pipeline, and encodes the result.
//!
//! All planes are sized at construction and never reallocated.  Raw
//! acquisition is device I/O and stays outside the library; callers hand
//! in the raw bytes and take the encoded JPEG back.

use vstd::prelude::*;
use crate::bayer::{lemma_unpack_px_bound, unpack_bayer10_plane, unpacked_at};
use crate::color::{
    apply_gamma_lut, apply_white_balance_plane, demosaic_bayer_plane, demosaiced_at, wb_apply,
    wb_gain_for,
};
use crate::config::{CaptureConfig, CaptureError, CaptureMode, GROUPS_PER_ROW, HEIGHT, STRIDE, WIDTH};
use crate::gray::{extract_grayscale_plane, extracted_at, upscale_bilinear, upscaled_at};
use crate::jpeg::{copy_bytes, encode_jpeg_l8, encode_jpeg_rgb8, jpeg_l8_of, jpeg_rgb8_of};

verus! {

/// The gamma-2.2 curve on 8-bit values, `((i/255) ^ (1/2.2)) * 255`
/// truncated to a byte: the executable form of the default gamma setting.
pub const DEFAULT_GAMMA_LUT: [u8; 256] = [
    0, 20, 28, 33, 38, 42, 46, 49,
    52, 55, 58, 61, 63, 65, 68, 70,
    72, 74, 76, 78, 80, 81, 83, 85,
    87, 88, 90, 91, 93, 94, 96, 97,
    99, 100, 102, 103, 104, 106, 107, 108,
    109, 111, 112, 113, 114, 115, 117, 118,
    119, 120, 121, 122, 123, 124, 125, 126,
    128, 129, 130, 131, 132, 133, 134, 135,
    136, 136, 137, 138, 139, 140, 141, 142,
    143, 144, 145, 146, 147, 147, 148, 149,
    150, 151, 152, 153, 153, 154, 155, 156,
    157, 158, 158, 159, 160, 161, 162, 162,
    163, 164, 165, 165, 166, 167, 168, 168,
    169, 170, 171, 171, 172, 173, 174, 174,
    175, 176, 176, 177, 178, 178, 179, 180,
    181, 181, 182, 183, 183, 184, 185, 185,
    186, 187, 187, 188, 189, 189, 190, 190,
    191, 192, 192, 193, 194, 194, 195, 196,
    196, 197, 197, 198, 199, 199, 200, 200,
    201, 202, 202, 203, 203, 204, 205, 205,
    206, 206, 207, 208, 208, 209, 209, 210,
    210, 211, 212, 212, 213, 213, 214, 214,
    215, 216, 216, 217, 217, 218, 218, 219,
    219, 220, 220, 221, 222, 222, 223, 223,
    224, 224, 225, 225, 226, 226, 227, 227,
    228, 228, 229, 229, 230, 230, 231, 231,
    232, 232, 233, 233, 234, 234, 235, 235,
    236, 236, 237, 237, 238, 238, 239, 239,
    240, 240, 241, 241, 242, 242, 243, 243,
    244, 244, 245, 245, 246, 246, 247, 247,
    248, 248, 249, 249, 249, 250, 250, 251,
    251, 252, 252, 253, 253, 254, 254, 255,
];

/// The native grayscale plane that extraction produces from a raw frame.
pub open spec fn gray_native_spec(raw: Seq<u8>) -> Seq<u8> {
    Seq::new(
        (GROUPS_PER_ROW * (HEIGHT / 2)) as nat,
        |j: int| extracted_at(raw, STRIDE as int, GROUPS_PER_ROW as int, j),
    )
}

/// The full-resolution grayscale plane: the native plane upscaled.
pub open spec fn gray_output_spec(raw: Seq<u8>) -> Seq<u8> {
    Seq::new(
        (WIDTH * HEIGHT) as nat,
        |i: int| upscaled_at(
            gray_native_spec(raw),
            GROUPS_PER_ROW as int,
            (HEIGHT / 2) as int,
            WIDTH as int,
            HEIGHT as int,
            i,
        ) as u8,
    )
}

/// The 10-bit Bayer plane that unpacking produces; `prev` is the plane
/// content before the call (kept where a packed group runs past the raw).
pub open spec fn bayer_plane_spec(raw: Seq<u8>, prev: Seq<u16>) -> Seq<u16> {
    Seq::new(
        (WIDTH * HEIGHT) as nat,
        |i: int| unpacked_at(raw, STRIDE as int, WIDTH as int, prev, i),
    )
}

/// The interleaved RGB plane that demosaicing a Bayer plane produces.
pub open spec fn rgb_demosaic_spec(bay: Seq<u16>) -> Seq<u8> {
    Seq::new(
        (3 * (WIDTH * HEIGHT)) as nat,
        |i: int| demosaiced_at(bay, WIDTH as int, HEIGHT as int, i) as u8,
    )
}

/// An RGB plane after gray-world white balance.
pub open spec fn white_balanced_spec(rgb: Seq<u8>) -> Seq<u8> {
    Seq::new(rgb.len(), |i: int| wb_apply(rgb[i], wb_gain_for(rgb, i % 3)))
}

/// An RGB plane after gamma correction through a 256-entry table.
pub open spec fn gamma_mapped_spec(rgb: Seq<u8>, lut: Seq<u8>) -> Seq<u8> {
    Seq::new(rgb.len(), |i: int| lut[rgb[i] as int])
}

/// The complete colour pipeline on a raw frame: unpack, demosaic,
/// optional white balance, gamma.
pub open spec fn color_plane_spec(raw: Seq<u8>, prev: Seq<u16>, lut: Seq<u8>, wb: bool) -> Seq<u8> {
    let d = rgb_demosaic_spec(bayer_plane_spec(raw, prev));
    let balanced = if wb { white_balanced_spec(d) } else { d };
    gamma_mapped_spec(balanced, lut)
}

/// Frame capture instance: configuration plus the reused scratch planes.
pub struct FrameCapture {
    pub config: CaptureConfig,
    /// 10-bit Bayer plane (colour mode).
    pub bayer10: Vec<u16>,
    /// Interleaved RGB plane (colour mode).
    pub rgb_buffer: Vec<u8>,
    /// Native grayscale plane, `GROUPS_PER_ROW x (HEIGHT / 2)`.
    pub gray_native: Vec<u8>,
    /// Full-resolution grayscale plane.
    pub gray_output: Vec<u8>,
    /// Reused JPEG output buffer.
    pub jpeg_buffer: Vec<u8>,
    /// Gamma curve, 8-bit in to 8-bit out.
    pub gamma_lut: Vec<u8>,
}

impl FrameCapture {
    /// Plane sizes are fixed at construction, and the Bayer plane only
    /// ever holds 10-bit values.
    pub open spec fn wf(self) -> bool {
        &&& self.bayer10.len() == WIDTH * HEIGHT
        &&& forall|i: int| 0 <= i < self.bayer10.len() ==> self.bayer10[i] < 1024
        &&& self.rgb_buffer.len() == 3 * (WIDTH * HEIGHT)
        &&& self.gray_native.len() == GROUPS_PER_ROW * (HEIGHT / 2)
        &&& self.gray_output.len() == WIDTH * HEIGHT
        &&& self.gamma_lut.len() == 256
    }

    /// A capture instance with the stock configuration and the built-in
    /// gamma-2.2 curve.
    pub fn new() -> (r: Result<FrameCapture, CaptureError>)
        ensures
            r matches Ok(c) && {
                &&& c.wf()
                &&& c.config.wf()
                &&& c.config.device_path@ == "/dev/video9"@
                &&& c.config.sensor_subdev@ == "/dev/v4l-subdev3"@
                &&& c.config.mode == CaptureMode::Color
                &&& c.config.jpeg_quality == 90
                &&& c.config.gamma_milli == 2200
                &&& c.config.enable_white_balance
                &&& c.gamma_lut@ == DEFAULT_GAMMA_LUT@
                &&& forall|i: int| 0 <= i < c.bayer10.len() ==> c.bayer10[i] == 0
                &&& forall|i: int| 0 <= i < c.gray_native.len() ==> c.gray_native[i] == 0
            },
    {
        FrameCapture::with_config(CaptureConfig::default(), default_gamma_lut())
    }

    /// A capture instance for the given configuration and gamma curve.
    /// The curve must have one entry per 8-bit value; anything else is
    /// rejected as a bad request.
    pub fn with_config(config: CaptureConfig, gamma_lut: Vec<u8>) -> (r: Result<
        FrameCapture,
        CaptureError,
    >)
        ensures
            gamma_lut.len() == 256 ==> (r matches Ok(c) && {
                &&& c.wf()
                &&& c.config == config
                &&& c.gamma_lut@ == gamma_lut@
                &&& forall|i: int| 0 <= i < c.bayer10.len() ==> c.bayer10[i] == 0
                &&& forall|i: int| 0 <= i < c.gray_native.len() ==> c.gray_native[i] == 0
            }),
            gamma_lut.len() != 256 ==> (r matches Err(e) && e == CaptureError::BadRequest),
    {
        if gamma_lut.len() != 256 {
            return Err(CaptureError::BadRequest);
        }
        Ok(
            FrameCapture {
                config,
                bayer10: zeroed_u16(WIDTH * HEIGHT),
                rgb_buffer: zeroed_u8(3 * (WIDTH * HEIGHT)),
                gray_native: zeroed_u8(GROUPS_PER_ROW * (HEIGHT / 2)),
                gray_output: zeroed_u8(WIDTH * HEIGHT),
                jpeg_buffer: Vec::new(),
                gamma_lut,
            },
        )
    }

    /// Marks the capture ready; the planes are already sized.
    pub fn start_streaming(&mut self) -> (r: Result<(), CaptureError>)
        ensures
            r is Ok,
            *final(self) == *old(self),
    {
        Ok(())
    }

    /// Switches the rendering mode; everything else is kept.
    pub fn set_mode(&mut self, mode: CaptureMode)
        ensures
            final(self).config.mode == mode,
            final(self).config.device_path == old(self).config.device_path,
            final(self).config.sensor_subdev == old(self).config.sensor_subdev,
            final(self).config.link_frequency == old(self).config.link_frequency,
            final(self).config.jpeg_quality == old(self).config.jpeg_quality,
            final(self).config.gamma_milli == old(self).config.gamma_milli,
            final(self).config.enable_white_balance == old(self).config.enable_white_balance,
            final(self).config.temp_dir == old(self).config.temp_dir,
            final(self).bayer10 == old(self).bayer10,
            final(self).rgb_buffer == old(self).rgb_buffer,
            final(self).gray_native == old(self).gray_native,
            final(self).gray_output == old(self).gray_output,
            final(self).jpeg_buffer == old(self).jpeg_buffer,
            final(self).gamma_lut == old(self).gamma_lut,
    {
        self.config.mode = mode;
    }

    /// The current rendering mode.
    pub fn mode(&self) -> (m: CaptureMode)
        ensures
            m == self.config.mode,
    {
        self.config.mode
    }

    /// The current configuration.
    pub fn config(&self) -> (c: &CaptureConfig)
        ensures
            c == &self.config,
    {
        &self.config
    }

    /// Runs one raw frame through the pipeline of the current mode and
    /// returns the encoded JPEG.  A tick is all-grayscale or all-colour:
    /// the output is a function of the mode read at entry, never a mix.
    pub fn process_raw_frame(&mut self, raw: &Vec<u8>) -> (r: Result<Vec<u8>, CaptureError>)
        requires
            old(self).wf(),
        ensures
            final(self).wf(),
            final(self).config == old(self).config,
            final(self).gamma_lut == old(self).gamma_lut,
            r is Ok,
            old(self).config.mode == CaptureMode::Grayscale ==> (r matches Ok(j) && j@
                == jpeg_l8_of(
                gray_output_spec(raw@),
                WIDTH as int,
                HEIGHT as int,
                old(self).config.jpeg_quality,
            )),
            old(self).config.mode == CaptureMode::Grayscale ==> final(self).bayer10
                == old(self).bayer10,
            old(self).config.mode == CaptureMode::Grayscale ==> final(self).gray_native@
                == gray_native_spec(raw@),
            old(self).config.mode == CaptureMode::Grayscale ==> final(self).gray_output@
                == gray_output_spec(raw@),
            old(self).config.mode == CaptureMode::Color ==> (r matches Ok(j) && j@ == jpeg_rgb8_of(
                color_plane_spec(
                    raw@,
                    old(self).bayer10@,
                    old(self).gamma_lut@,
                    old(self).config.enable_white_balance,
                ),
                WIDTH as int,
                HEIGHT as int,
                old(self).config.jpeg_quality,
            )),
            old(self).config.mode == CaptureMode::Color ==> final(self).bayer10@
                == bayer_plane_spec(raw@, old(self).bayer10@),
    {
        match self.config.mode {
            CaptureMode::Grayscale => {
                extract_grayscale_plane(
                    raw,
                    STRIDE,
                    GROUPS_PER_ROW,
                    HEIGHT / 2,
                    &mut self.gray_native,
                );
                proof {
                    assert(self.gray_native@ =~= gray_native_spec(raw@));
                }
                upscale_bilinear(
                    &self.gray_native,
                    GROUPS_PER_ROW,
                    HEIGHT / 2,
                    WIDTH,
                    HEIGHT,
                    &mut self.gray_output,
                );
                proof {
                    assert(self.gray_output@ =~= gray_output_spec(raw@));
                }
                encode_jpeg_l8(
                    &self.gray_output,
                    WIDTH as u32,
                    HEIGHT as u32,
                    self.config.jpeg_quality,
                    &mut self.jpeg_buffer,
                );
                Ok(copy_bytes(&self.jpeg_buffer))
            },
            CaptureMode::Color => {
                unpack_bayer10_plane(raw, STRIDE, WIDTH, HEIGHT, &mut self.bayer10);
                proof {
                    assert(self.bayer10@ =~= bayer_plane_spec(raw@, old(self).bayer10@));
                    assert forall|i: int| 0 <= i < self.bayer10.len() implies
                        #[trigger] self.bayer10[i] < 1024 by {
                        let y = i / (WIDTH as int);
                        let col = i % (WIDTH as int);
                        let base = y * (STRIDE as int) + 5 * (col / 4);
                        if base + 4 < raw@.len() {
                            lemma_unpack_px_bound(
                                raw@[base + (col % 4)],
                                raw@[base + 4],
                                (col % 4) as u16,
                            );
                        }
                    }
                }
                demosaic_bayer_plane(&self.bayer10, WIDTH, HEIGHT, &mut self.rgb_buffer);
                let ghost demosaiced = self.rgb_buffer@;
                proof {
                    assert(demosaiced =~= rgb_demosaic_spec(self.bayer10@));
                }
                if self.config.enable_white_balance {
                    apply_white_balance_plane(&mut self.rgb_buffer);
                    proof {
                        assert(self.rgb_buffer@ =~= white_balanced_spec(demosaiced));
                    }
                }
                let ghost balanced = self.rgb_buffer@;
                apply_gamma_lut(&mut self.rgb_buffer, &self.gamma_lut);
                proof {
                    assert(self.rgb_buffer@ =~= gamma_mapped_spec(balanced, self.gamma_lut@));
                }
                encode_jpeg_rgb8(
                    &self.rgb_buffer,
                    WIDTH as u32,
                    HEIGHT as u32,
                    self.config.jpeg_quality,
                    &mut self.jpeg_buffer,
                );
                Ok(copy_bytes(&self.jpeg_buffer))
            },
        }
    }
}

/// The built-in gamma-2.2 curve as a fresh vector.
pub fn default_gamma_lut() -> (l: Vec<u8>)
    ensures
        l@ == DEFAULT_GAMMA_LUT@,
        l.len() == 256,
{
    let mut l: Vec<u8> = Vec::new();
    let mut i: usize = 0;
    while i < 256
        invariant
            i <= 256,
            l@ == DEFAULT_GAMMA_LUT@.subrange(0, i as int),
        decreases 256 - i,
    {
        l.push(DEFAULT_GAMMA_LUT[i]);
        i = i + 1;
        proof {
            assert(l@ =~= DEFAULT_GAMMA_LUT@.subrange(0, i as int));
        }
    }
    proof {
        assert(l@ =~= DEFAULT_GAMMA_LUT@);
    }
    l
}

/// A zero-filled `u16` plane.
fn zeroed_u16(n: usize) -> (v: Vec<u16>)
    ensures
        v.len() == n,
        forall|i: int| 0 <= i < n ==> v[i] == 0,
{
    let mut v: Vec<u16> = Vec::new();
    let mut i: usize = 0;
    while i < n
        invariant
            i <= n,
            v.len() == i,
            forall|j: int| 0 <= j < i ==> v[j] == 0,
        decreases n - i,
    {
        v.push(0);
        i = i + 1;
    }
    v
}

/// A zero-filled byte plane.
fn zeroed_u8(n: usize) -> (v: Vec<u8>)
    ensures
        v.len() == n,
        forall|i: int| 0 <= i < n ==> v[i] == 0,
{
    let mut v: Vec<u8> = Vec::new();
    let mut i: usize = 0;
    while i < n
        invariant
            i <= n,
            v.len() == i,
            forall|j: int| 0 <= j < i ==> v[j] == 0,
        decreases n - i,
    {
        v.push(0);
        i = i + 1;
    }
    v
}

} // verus!

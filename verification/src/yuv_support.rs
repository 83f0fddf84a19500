//! Pixel layouts, colour matrices and conversion parameters.

use vstd::prelude::*;

verus! {

/// Excursion of the encoded samples.
#[derive(Clone, Copy, Debug, PartialEq, Eq, Structural)]
pub enum YuvRange {
    Limited,
    Full,
}

/// Standard colour matrices.
#[derive(Clone, Copy, Debug, PartialEq, Eq, Structural)]
pub enum YuvStandardMatrix {
    Bt601,
    Bt709,
    Bt2020,
    Smpte240,
    Bt470_6,
}

/// Chroma subsampling schemes.
#[derive(Clone, Copy, Debug, PartialEq, Eq, Structural)]
pub enum YuvChromaSubsampling {
    Yuv420,
    Yuv422,
    Yuv444,
}

/// Byte order of the interleaved source pixels.
#[derive(Clone, Copy, Debug, PartialEq, Eq, Structural)]
pub enum YuvSourceChannels {
    Rgb,
    Rgba,
    Bgra,
    Bgr,
}

/// Order of the chroma samples in a bi-planar image: `UV` for NV12, `VU` for
/// NV21.
#[derive(Clone, Copy, Debug, PartialEq, Eq, Structural)]
pub enum YuvNVOrder {
    UV,
    VU,
}

/// Zero levels and excursions of the encoded samples.
#[derive(Clone, Copy, Debug, PartialEq, Eq, Structural)]
pub struct YuvChromaRange {
    pub bias_y: u32,
    pub bias_uv: u32,
    pub range_y: u32,
    pub range_uv: u32,
    pub range: YuvRange,
}

/// Fixed-point weights of the forward transform.
#[derive(Clone, Copy, Debug, PartialEq, Eq)]
pub struct CbCrForwardTransform<T> {
    pub yr: T,
    pub yg: T,
    pub yb: T,
    pub cb_r: T,
    pub cb_g: T,
    pub cb_b: T,
    pub cr_r: T,
    pub cr_g: T,
    pub cr_b: T,
}

impl YuvSourceChannels {
    /// The layout with the given code, its position in the declaration.
    pub open spec fn decoded(code: u8) -> Self {
        if code == 0 {
            YuvSourceChannels::Rgb
        } else if code == 1 {
            YuvSourceChannels::Rgba
        } else if code == 2 {
            YuvSourceChannels::Bgra
        } else {
            YuvSourceChannels::Bgr
        }
    }

    /// Whether `code` names a layout.
    pub open spec fn is_code(code: u8) -> bool {
        code < 4
    }

    /// Whether a pixel has a fourth byte.
    pub open spec fn four_channels(self) -> bool {
        self is Rgba || self is Bgra
    }

    /// The first byte of pixel `x` in a row.
    pub open spec fn pixel(self, x: int) -> int {
        if self.four_channels() {
            4 * x
        } else {
            3 * x
        }
    }

    /// Where red lies in a pixel.
    pub open spec fn r_offset(self) -> int {
        if self is Rgb || self is Rgba {
            0
        } else {
            2
        }
    }

    /// Where blue lies in a pixel.
    pub open spec fn b_offset(self) -> int {
        if self is Rgb || self is Rgba {
            2
        } else {
            0
        }
    }

    /// The red sample of pixel `x`.
    pub open spec fn red(self, row: Seq<u8>, x: int) -> int {
        row[self.pixel(x) + self.r_offset()] as int
    }

    /// The green sample of pixel `x`.
    pub open spec fn green(self, row: Seq<u8>, x: int) -> int {
        row[self.pixel(x) + 1] as int
    }

    /// The blue sample of pixel `x`.
    pub open spec fn blue(self, row: Seq<u8>, x: int) -> int {
        row[self.pixel(x) + self.b_offset()] as int
    }

    /// Decodes a layout from its code.
    pub fn from(code: u8) -> (r: Self)
        requires
            Self::is_code(code),
        ensures
            r == Self::decoded(code),
    {
        match code {
            0 => YuvSourceChannels::Rgb,
            1 => YuvSourceChannels::Rgba,
            2 => YuvSourceChannels::Bgra,
            _ => YuvSourceChannels::Bgr,
        }
    }

    /// Bytes per pixel.
    pub fn get_channels_count(self) -> (r: usize)
        ensures
            r == self.pixel(1),
    {
        match self {
            YuvSourceChannels::Rgb | YuvSourceChannels::Bgr => 3,
            YuvSourceChannels::Rgba | YuvSourceChannels::Bgra => 4,
        }
    }

    /// Where red lies in a pixel.
    pub fn get_r_channel_offset(self) -> (r: usize)
        ensures
            r == self.r_offset(),
    {
        match self {
            YuvSourceChannels::Rgb | YuvSourceChannels::Rgba => 0,
            YuvSourceChannels::Bgra | YuvSourceChannels::Bgr => 2,
        }
    }

    /// Where green lies in a pixel.
    pub fn get_g_channel_offset(self) -> (r: usize)
        ensures
            r == 1,
    {
        1
    }

    /// Where blue lies in a pixel.
    pub fn get_b_channel_offset(self) -> (r: usize)
        ensures
            r == self.b_offset(),
    {
        match self {
            YuvSourceChannels::Rgb | YuvSourceChannels::Rgba => 2,
            YuvSourceChannels::Bgra | YuvSourceChannels::Bgr => 0,
        }
    }

    /// Pixel offsets are column times pixel size.
    pub proof fn lemma_pixel(self, x: int)
        ensures
            x * self.pixel(1) == self.pixel(x),
    {
        if self.four_channels() {
            assert(x * 4 == 4 * x);
        } else {
            assert(x * 3 == 3 * x);
        }
    }
}

impl YuvNVOrder {
    /// The order with the given code, its position in the declaration.
    pub open spec fn decoded(code: u8) -> Self {
        if code == 0 {
            YuvNVOrder::UV
        } else {
            YuvNVOrder::VU
        }
    }

    /// Whether `code` names an order.
    pub open spec fn is_code(code: u8) -> bool {
        code < 2
    }

    /// Where U lies in a chroma pair.
    pub open spec fn u_position(self) -> int {
        if self is UV {
            0
        } else {
            1
        }
    }

    /// Where V lies in a chroma pair.
    pub open spec fn v_position(self) -> int {
        1 - self.u_position()
    }

    /// Decodes an order from its code.
    pub fn from(code: u8) -> (r: Self)
        requires
            Self::is_code(code),
        ensures
            r == Self::decoded(code),
    {
        match code {
            0 => YuvNVOrder::UV,
            _ => YuvNVOrder::VU,
        }
    }

    /// Where U lies in a chroma pair.
    pub fn get_u_position(self) -> (r: usize)
        ensures
            r == self.u_position(),
    {
        match self {
            YuvNVOrder::UV => 0,
            YuvNVOrder::VU => 1,
        }
    }

    /// Where V lies in a chroma pair.
    pub fn get_v_position(self) -> (r: usize)
        ensures
            r == self.v_position(),
    {
        match self {
            YuvNVOrder::UV => 1,
            YuvNVOrder::VU => 0,
        }
    }
}

} // verus!

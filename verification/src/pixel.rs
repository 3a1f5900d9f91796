//! Pixel layouts accepted by the pixel decoder and the edge policies of the
//! border operations, with the integer codes both are exchanged under.

use vstd::prelude::*;

verus! {

/// Number of bits by which the target layout is shifted inside a conversion code.
pub const PIXEL_CONVERT_SHIFT: u32 = 16;

/// Arrangement of the samples of one interleaved pixel.
#[derive(Clone, Copy, Debug, PartialEq, Eq, Structural)]
pub enum PixelLayout {
    Rgb,
    Bgr,
    Gray,
    Rgba,
    Bgra,
}

impl PixelLayout {
    /// The integer a layout is known by.
    pub open spec fn spec_code(self) -> int {
        match self {
            PixelLayout::Rgb => 1,
            PixelLayout::Bgr => 2,
            PixelLayout::Gray => 3,
            PixelLayout::Rgba => 4,
            PixelLayout::Bgra => 5,
        }
    }

    /// Samples per pixel.
    pub open spec fn spec_channels(self) -> int {
        match self {
            PixelLayout::Gray => 1,
            PixelLayout::Rgb | PixelLayout::Bgr => 3,
            PixelLayout::Rgba | PixelLayout::Bgra => 4,
        }
    }

    /// The integer the layout is known by.
    pub fn code(self) -> (code: i32)
        ensures
            code == self.spec_code(),
    {
        match self {
            PixelLayout::Rgb => 1,
            PixelLayout::Bgr => 2,
            PixelLayout::Gray => 3,
            PixelLayout::Rgba => 4,
            PixelLayout::Bgra => 5,
        }
    }

    /// Samples per pixel.
    pub fn channels(self) -> (count: i32)
        ensures
            count == self.spec_channels(),
    {
        match self {
            PixelLayout::Gray => 1,
            PixelLayout::Rgb | PixelLayout::Bgr => 3,
            PixelLayout::Rgba | PixelLayout::Bgra => 4,
        }
    }
}

/// What a pixel buffer holds and, for the conversions, what it is decoded to.
#[derive(Clone, Copy, Debug, PartialEq, Eq, Structural)]
pub enum PixelType {
    Bgr,
    Bgra,
    Gray,
    Rgb,
    Rgba,
    RgbToBgr,
    RgbToGray,
    RgbToRgba,
    RgbToBgra,
    BgrToRgb,
    BgrToGray,
    BgrToRgba,
    BgrToBgra,
    GrayToRgb,
    GrayToBgr,
    GrayToRgba,
    GrayToBgra,
    RgbaToRgb,
    RgbaToBgr,
    RgbaToGray,
    RgbaToBgra,
    BgraToRgb,
    BgraToBgr,
    BgraToGray,
    BgraToRgba,
}

impl PixelType {
    /// Layout of the buffer that is decoded.
    pub open spec fn spec_source(self) -> PixelLayout {
        match self {
            PixelType::Bgr
            | PixelType::BgrToRgb
            | PixelType::BgrToGray
            | PixelType::BgrToRgba
            | PixelType::BgrToBgra => PixelLayout::Bgr,
            PixelType::Bgra
            | PixelType::BgraToRgb
            | PixelType::BgraToBgr
            | PixelType::BgraToGray
            | PixelType::BgraToRgba => PixelLayout::Bgra,
            PixelType::Gray
            | PixelType::GrayToRgb
            | PixelType::GrayToBgr
            | PixelType::GrayToRgba
            | PixelType::GrayToBgra => PixelLayout::Gray,
            PixelType::Rgb
            | PixelType::RgbToBgr
            | PixelType::RgbToGray
            | PixelType::RgbToRgba
            | PixelType::RgbToBgra => PixelLayout::Rgb,
            PixelType::Rgba
            | PixelType::RgbaToRgb
            | PixelType::RgbaToBgr
            | PixelType::RgbaToGray
            | PixelType::RgbaToBgra => PixelLayout::Rgba,
        }
    }

    /// Layout of the tensor that the decoder produces.
    pub open spec fn spec_target(self) -> PixelLayout {
        match self {
            PixelType::Bgr
            | PixelType::RgbToBgr
            | PixelType::GrayToBgr
            | PixelType::RgbaToBgr
            | PixelType::BgraToBgr => PixelLayout::Bgr,
            PixelType::Bgra
            | PixelType::RgbToBgra
            | PixelType::BgrToBgra
            | PixelType::GrayToBgra
            | PixelType::RgbaToBgra => PixelLayout::Bgra,
            PixelType::Gray
            | PixelType::RgbToGray
            | PixelType::BgrToGray
            | PixelType::RgbaToGray
            | PixelType::BgraToGray => PixelLayout::Gray,
            PixelType::Rgb
            | PixelType::BgrToRgb
            | PixelType::GrayToRgb
            | PixelType::RgbaToRgb
            | PixelType::BgraToRgb => PixelLayout::Rgb,
            PixelType::Rgba
            | PixelType::RgbToRgba
            | PixelType::BgrToRgba
            | PixelType::GrayToRgba
            | PixelType::BgraToRgba => PixelLayout::Rgba,
        }
    }

    /// The integer a pixel type is known by: the code of the source layout,
    /// and for a conversion the code of the target layout above it, shifted
    /// by `PIXEL_CONVERT_SHIFT` bits.
    pub open spec fn spec_to_int(self) -> int {
        if self.spec_source() == self.spec_target() {
            self.spec_source().spec_code()
        } else {
            self.spec_source().spec_code() + 0x1_0000 * self.spec_target().spec_code()
        }
    }

    /// Bytes that one pixel takes in the buffer that is decoded.
    pub open spec fn spec_stride(self) -> int {
        self.spec_source().spec_channels()
    }

    /// Channel planes of the tensor that the decoder produces.
    pub open spec fn spec_channels(self) -> int {
        self.spec_target().spec_channels()
    }

    /// Layout of the buffer that is decoded.
    #[verifier::when_used_as_spec(spec_source)]
    pub fn source(self) -> (layout: PixelLayout)
        ensures
            layout == self.spec_source(),
    {
        match self {
            PixelType::Bgr
            | PixelType::BgrToRgb
            | PixelType::BgrToGray
            | PixelType::BgrToRgba
            | PixelType::BgrToBgra => PixelLayout::Bgr,
            PixelType::Bgra
            | PixelType::BgraToRgb
            | PixelType::BgraToBgr
            | PixelType::BgraToGray
            | PixelType::BgraToRgba => PixelLayout::Bgra,
            PixelType::Gray
            | PixelType::GrayToRgb
            | PixelType::GrayToBgr
            | PixelType::GrayToRgba
            | PixelType::GrayToBgra => PixelLayout::Gray,
            PixelType::Rgb
            | PixelType::RgbToBgr
            | PixelType::RgbToGray
            | PixelType::RgbToRgba
            | PixelType::RgbToBgra => PixelLayout::Rgb,
            PixelType::Rgba
            | PixelType::RgbaToRgb
            | PixelType::RgbaToBgr
            | PixelType::RgbaToGray
            | PixelType::RgbaToBgra => PixelLayout::Rgba,
        }
    }

    /// Layout of the tensor that the decoder produces.
    #[verifier::when_used_as_spec(spec_target)]
    pub fn target(self) -> (layout: PixelLayout)
        ensures
            layout == self.spec_target(),
    {
        match self {
            PixelType::Bgr
            | PixelType::RgbToBgr
            | PixelType::GrayToBgr
            | PixelType::RgbaToBgr
            | PixelType::BgraToBgr => PixelLayout::Bgr,
            PixelType::Bgra
            | PixelType::RgbToBgra
            | PixelType::BgrToBgra
            | PixelType::GrayToBgra
            | PixelType::RgbaToBgra => PixelLayout::Bgra,
            PixelType::Gray
            | PixelType::RgbToGray
            | PixelType::BgrToGray
            | PixelType::RgbaToGray
            | PixelType::BgraToGray => PixelLayout::Gray,
            PixelType::Rgb
            | PixelType::BgrToRgb
            | PixelType::GrayToRgb
            | PixelType::RgbaToRgb
            | PixelType::BgraToRgb => PixelLayout::Rgb,
            PixelType::Rgba
            | PixelType::RgbToRgba
            | PixelType::BgrToRgba
            | PixelType::GrayToRgba
            | PixelType::BgraToRgba => PixelLayout::Rgba,
        }
    }

    /// The integer the pixel type is known by.
    pub fn to_int(&self) -> (code: i32)
        ensures
            code == self.spec_to_int(),
    {
        let source: i32 = self.source().code();
        let target: i32 = self.target().code();
        if source == target {
            source
        } else {
            assert((source | (target << PIXEL_CONVERT_SHIFT)) == source + 0x1_0000 * target) by (bit_vector)
                requires
                    1 <= source <= 5,
                    1 <= target <= 5,
            ;
            source | (target << PIXEL_CONVERT_SHIFT)
        }
    }

    /// Bytes that one pixel takes in the buffer that is decoded.
    pub fn stride(&self) -> (bytes: i32)
        ensures
            bytes == self.spec_stride(),
            1 <= bytes <= 4,
    {
        self.source().channels()
    }

    /// Channel planes of the tensor that the decoder produces.
    pub fn channels(&self) -> (count: i32)
        ensures
            count == self.spec_channels(),
            1 <= count <= 4,
    {
        self.target().channels()
    }
}

/// Distinct pixel types are known by distinct integers.
pub proof fn lemma_pixel_code_injective(a: PixelType, b: PixelType)
    requires
        a.spec_to_int() == b.spec_to_int(),
    ensures
        a == b,
{
}

/// How the samples outside the source are chosen when a border is added.
#[derive(Clone, Copy, Debug, PartialEq, Eq, Structural)]
pub enum BorderType {
    /// Every border sample takes the fill value.
    Constant,
    /// A border sample takes the value of the nearest source sample.
    Replicate,
    /// A border sample takes the value of the source sample that mirrors it
    /// about the edge, the edge sample itself not repeated.
    Reflect,
    /// Border samples are left as allocated.
    Transparent,
}

impl BorderType {
    /// The integer an edge policy is known by.
    pub open spec fn spec_to_int(self) -> int {
        match self {
            BorderType::Constant => 0,
            BorderType::Replicate => 1,
            BorderType::Reflect => 2,
            BorderType::Transparent => -233,
        }
    }

    /// The integer the edge policy is known by.
    pub fn to_int(&self) -> (code: i32)
        ensures
            code == self.spec_to_int(),
    {
        match self {
            BorderType::Constant => 0,
            BorderType::Replicate => 1,
            BorderType::Reflect => 2,
            BorderType::Transparent => -233,
        }
    }
}

} // verus!

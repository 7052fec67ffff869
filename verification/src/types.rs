//! Types that describe drawing operations.

use vstd::prelude::*;

verus! {

/// The association between JPEG 2000 color samples and an embedded opacity channel.
#[derive(Clone, Copy, Debug, Eq, Hash, PartialEq, Structural)]
pub enum EmbeddedImageAlphaMode {
    /// Color samples are independent of the opacity samples (`/SMaskInData 1`).
    Unassociated,
    /// Color samples are preblended with a matte (`/SMaskInData 2`).
    Premultiplied,
}

/// The families of color spaces.
#[derive(Clone, Copy, Debug, Eq, Hash, PartialEq, Structural)]
pub enum ColorSpaceKind {
    DeviceGray,
    DeviceRgb,
    DeviceCmyk,
    CalGray,
    CalRgb,
    Lab,
    IccBased,
    Indexed,
    Separation,
    DeviceN,
    Pattern,
}

/// Typed source/effective color-space properties for a raster image.
#[derive(Clone, Copy, Debug, Eq, Hash, PartialEq, Structural)]
pub struct ImageColorSpaceProperties {
    pub has_color_space: bool,
    pub declared_color_space_kind: Option<ColorSpaceKind>,
    pub color_space_kind: Option<ColorSpaceKind>,
    pub color_space_components: Option<usize>,
    pub color_space_default_overridden: bool,
}

impl ImageColorSpaceProperties {
    /// Whether the image explicitly declares `ColorSpace`/`CS`.
    pub fn has_color_space(self) -> (result: bool)
        ensures
            result == self.has_color_space,
    {
        self.has_color_space
    }

    /// Parsed family named by the image before default-device remapping.
    pub fn declared_color_space_kind(self) -> (result: Option<ColorSpaceKind>)
        ensures
            result == self.declared_color_space_kind,
    {
        self.declared_color_space_kind
    }

    /// Parsed family actually used to decode the image.
    pub fn color_space_kind(self) -> (result: Option<ColorSpaceKind>)
        ensures
            result == self.color_space_kind,
    {
        self.color_space_kind
    }

    /// Native component count accepted by the effective color space.
    pub fn color_space_components(self) -> (result: Option<usize>)
        ensures
            result == self.color_space_components,
    {
        self.color_space_components
    }

    /// Whether a default device-space resource replaces the declared space or an underlying
    /// Indexed base or selected Separation/DeviceN alternative.
    pub fn color_space_is_default_overridden(self) -> (result: bool)
        ensures
            result == self.color_space_default_overridden,
    {
        self.color_space_default_overridden
    }
}

/// A fill rule.
#[derive(Clone, Debug, Copy, Hash, PartialEq, Eq, Structural)]
pub enum FillRule {
    /// Non-zero filling.
    NonZero,
    /// Even-odd filling.
    EvenOdd,
}

/// A blend mode.
#[derive(Clone, Debug, Copy, Hash, PartialEq, Eq, Structural)]
pub enum BlendMode {
    /// Normal blend mode (default).
    Normal,
    /// Multiply blend mode.
    Multiply,
    /// Screen blend mode.
    Screen,
    /// Overlay blend mode.
    Overlay,
    /// Darken blend mode.
    Darken,
    /// Lighten blend mode.
    Lighten,
    /// `ColorDodge` blend mode.
    ColorDodge,
    /// `ColorBurn` blend mode.
    ColorBurn,
    /// `HardLight` blend mode.
    HardLight,
    /// `SoftLight` blend mode.
    SoftLight,
    /// Difference blend mode.
    Difference,
    /// Exclusion blend mode.
    Exclusion,
    /// Hue blend mode.
    Hue,
    /// Saturation blend mode.
    Saturation,
    /// Color blend mode.
    Color,
    /// Luminosity blend mode.
    Luminosity,
}

impl Default for BlendMode {
    fn default() -> (mode: Self)
        ensures
            mode == BlendMode::Normal,
    {
        BlendMode::Normal
    }
}

/// The shape of the ends of open lines.
#[derive(Clone, Debug, Copy, Hash, PartialEq, Eq, Structural)]
pub enum Cap {
    Butt,
    Round,
    Square,
}

/// The shape of the corners of lines.
#[derive(Clone, Debug, Copy, Hash, PartialEq, Eq, Structural)]
pub enum Join {
    Miter,
    Round,
    Bevel,
}

/// Scaling factors of an image, given by their bits in single precision.
#[derive(Clone, Debug, Copy, PartialEq, Eq, Structural)]
pub struct ScaleFactors {
    pub x: u32,
    pub y: u32,
}

/// Image data with a sequence.
#[verifier::ext_equal]
pub struct PlaneModel {
    pub data: Seq<u8>,
    pub width: u32,
    pub height: u32,
    pub interpolate: bool,
    pub scale_factors: ScaleFactors,
}

/// A structure holding 3-channel RGB data.
#[derive(Clone, Debug)]
pub struct RgbData {
    /// The actual data, three bytes for each pixel.
    pub data: Vec<u8>,
    pub width: u32,
    pub height: u32,
    /// Whether the image should be interpolated.
    pub interpolate: bool,
    /// Additional scaling factors to apply to the image.
    ///
    /// The factors are not 1 where the document gives a wrong width or height that needs to be
    /// corrected, and where a lower resolution of the image was requested.
    pub scale_factors: ScaleFactors,
}

impl View for RgbData {
    type V = PlaneModel;

    open spec fn view(&self) -> PlaneModel {
        PlaneModel {
            data: self.data@,
            width: self.width,
            height: self.height,
            interpolate: self.interpolate,
            scale_factors: self.scale_factors,
        }
    }
}

/// A structure holding normalized four-channel direct `DeviceCMYK` data.
#[derive(Clone, Debug)]
pub struct CmykData {
    /// Interleaved C, M, Y, and K bytes.
    pub data: Vec<u8>,
    pub width: u32,
    pub height: u32,
    /// Whether the image should be interpolated.
    pub interpolate: bool,
    /// Additional scaling factors to apply to the image.
    pub scale_factors: ScaleFactors,
}

impl View for CmykData {
    type V = PlaneModel;

    open spec fn view(&self) -> PlaneModel {
        PlaneModel {
            data: self.data@,
            width: self.width,
            height: self.height,
            interpolate: self.interpolate,
            scale_factors: self.scale_factors,
        }
    }
}

/// A structure holding 1-channel luma data.
#[derive(Clone, Debug)]
pub struct LumaData {
    /// The actual data, one byte for each pixel.
    pub data: Vec<u8>,
    pub width: u32,
    pub height: u32,
    /// Whether the image should be interpolated.
    pub interpolate: bool,
    /// Additional scaling factors to apply to the image.
    pub scale_factors: ScaleFactors,
}

impl View for LumaData {
    type V = PlaneModel;

    open spec fn view(&self) -> PlaneModel {
        PlaneModel {
            data: self.data@,
            width: self.width,
            height: self.height,
            interpolate: self.interpolate,
            scale_factors: self.scale_factors,
        }
    }
}

/// The color data of a raster image, either 3-channel RGB or 1-channel luma.
#[derive(Clone, Debug)]
pub enum ImageData {
    /// 3-channel RGB data.
    Rgb(RgbData),
    /// 1-channel grayscale data.
    Luma(LumaData),
}

/// Colors of an image with a sequence.
#[verifier::ext_equal]
pub enum ImageModel {
    Rgb(PlaneModel),
    Luma(PlaneModel),
}

impl View for ImageData {
    type V = ImageModel;

    open spec fn view(&self) -> ImageModel {
        match self {
            ImageData::Rgb(d) => ImageModel::Rgb(d@),
            ImageData::Luma(d) => ImageModel::Luma(d@),
        }
    }
}

impl ImageData {
    /// The width of the image.
    pub fn width(&self) -> (width: u32)
        ensures
            width == match *self {
                ImageData::Rgb(d) => d.width,
                ImageData::Luma(d) => d.width,
            },
    {
        match self {
            ImageData::Rgb(d) => d.width,
            ImageData::Luma(d) => d.width,
        }
    }

    /// The height of the image.
    pub fn height(&self) -> (height: u32)
        ensures
            height == match *self {
                ImageData::Rgb(d) => d.height,
                ImageData::Luma(d) => d.height,
            },
    {
        match self {
            ImageData::Rgb(d) => d.height,
            ImageData::Luma(d) => d.height,
        }
    }

    /// Whether the image should be interpolated.
    pub fn interpolate(&self) -> (interpolate: bool)
        ensures
            interpolate == match *self {
                ImageData::Rgb(d) => d.interpolate,
                ImageData::Luma(d) => d.interpolate,
            },
    {
        match self {
            ImageData::Rgb(d) => d.interpolate,
            ImageData::Luma(d) => d.interpolate,
        }
    }

    /// The scaling factors of the image.
    pub fn scale_factors(&self) -> (factors: ScaleFactors)
        ensures
            factors == match *self {
                ImageData::Rgb(d) => d.scale_factors,
                ImageData::Luma(d) => d.scale_factors,
            },
    {
        match self {
            ImageData::Rgb(d) => d.scale_factors,
            ImageData::Luma(d) => d.scale_factors,
        }
    }
}

} // verus!

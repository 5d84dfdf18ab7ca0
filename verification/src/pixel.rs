use vstd::prelude::*;

use vstd::std_specs::convert::FromSpecImpl;

verus! {

/// Pixel format of the rendered image.
#[derive(Debug, Copy, Clone, Eq, PartialEq, Hash, Structural)]
pub enum PixelFormat {
    /// Grayscale, single channel
    Gray,
    /// Grayscale with alpha, two channels
    Graya,
    /// RGB, three channels
    Rgb,
    /// RGB with alpha, four channels
    Rgba,
    /// CMYK, four channels
    Cmyk,
    /// CMYK with alpha, five channels
    Cmyka,
}

impl PixelFormat {
    /// The number of channels of a pixel of this format.
    pub open spec fn spec_channels(self) -> nat {
        match self {
            PixelFormat::Gray => 1,
            PixelFormat::Graya => 2,
            PixelFormat::Rgb => 3,
            PixelFormat::Rgba => 4,
            PixelFormat::Cmyk => 4,
            PixelFormat::Cmyka => 5,
        }
    }

    /// Whether the format is grayscale.
    pub open spec fn spec_is_grayscale(self) -> bool {
        self is Gray || self is Graya
    }

    /// Whether the format has an alpha channel.
    pub open spec fn spec_has_alpha(self) -> bool {
        self is Graya || self is Rgba || self is Cmyka
    }

    /// Whether the format has a black channel.
    pub open spec fn spec_has_black(self) -> bool {
        self is Cmyk || self is Cmyka
    }

    /// Returns the number of channels of the image.
    pub fn channels(self) -> (r: usize)
        ensures
            r == self.spec_channels(),
    {
        match self {
            PixelFormat::Gray => 1,
            PixelFormat::Graya => 2,
            PixelFormat::Rgb => 3,
            PixelFormat::Rgba => 4,
            PixelFormat::Cmyk => 4,
            PixelFormat::Cmyka => 5,
        }
    }

    /// Returns whether the image is grayscale.
    pub fn is_grayscale(self) -> (r: bool)
        ensures
            r == self.spec_is_grayscale(),
    {
        match self {
            PixelFormat::Gray | PixelFormat::Graya => true,
            _ => false,
        }
    }

    /// Returns whether the image has an alpha channel.
    pub fn has_alpha(self) -> (r: bool)
        ensures
            r == self.spec_has_alpha(),
    {
        match self {
            PixelFormat::Graya | PixelFormat::Rgba | PixelFormat::Cmyka => true,
            _ => false,
        }
    }

    /// Returns whether the image has a black channel.
    pub fn has_black(self) -> (r: bool)
        ensures
            r == self.spec_has_black(),
    {
        match self {
            PixelFormat::Cmyk | PixelFormat::Cmyka => true,
            _ => false,
        }
    }

    /// The format with the given colour model and alpha: a grayscale model
    /// wins over a black channel.
    pub open spec fn spec_compose(is_grayscale: bool, has_black: bool, has_alpha: bool) -> PixelFormat {
        if is_grayscale {
            if has_alpha { PixelFormat::Graya } else { PixelFormat::Gray }
        } else if has_black {
            if has_alpha { PixelFormat::Cmyka } else { PixelFormat::Cmyk }
        } else {
            if has_alpha { PixelFormat::Rgba } else { PixelFormat::Rgb }
        }
    }

    /// The format with the given colour model and alpha.
    pub fn compose(is_grayscale: bool, has_black: bool, has_alpha: bool) -> (r: PixelFormat)
        ensures
            r == PixelFormat::spec_compose(is_grayscale, has_black, has_alpha),
            r.spec_is_grayscale() == is_grayscale,
            r.spec_has_black() == (has_black && !is_grayscale),
            r.spec_has_alpha() == has_alpha,
    {
        match (is_grayscale, has_black, has_alpha) {
            (false, false, false) => PixelFormat::Rgb,
            (false, false, true) => PixelFormat::Rgba,
            (false, true, false) => PixelFormat::Cmyk,
            (false, true, true) => PixelFormat::Cmyka,
            (true, _, false) => PixelFormat::Gray,
            (true, _, true) => PixelFormat::Graya,
        }
    }
}

/// The colour space of an enumerated colour encoding.
#[derive(Debug, Copy, Clone, Eq, PartialEq, Hash, Structural)]
pub enum ColourSpace {
    Rgb,
    Grey,
    Xyb,
    Unknown,
}

/// The colour encoding that images are rendered in: an enumerated
/// encoding, or one described by an ICC profile.
#[derive(Debug)]
pub enum RenderedEncoding {
    Enum { colour_space: ColourSpace },
    IccProfile(Vec<u8>),
}

/// The colour model that an ICC profile header declares: whether it is
/// grayscale, and whether it has a black channel. Bytes 16 to 19 of the
/// header name the data colour space; a profile shorter than the header
/// counts as RGB.
pub open spec fn icc_colour_model(profile: Seq<u8>) -> (bool, bool) {
    if profile.len() < 0x14 {
        (false, false)
    } else if profile[0x10] == 0x47u8 && profile[0x11] == 0x52u8 && profile[0x12] == 0x41u8
        && profile[0x13] == 0x59u8 {
        (true, false)
    } else if profile[0x10] == 0x43u8 && profile[0x11] == 0x4du8 && profile[0x12] == 0x59u8
        && profile[0x13] == 0x4bu8 {
        (false, true)
    } else {
        (false, false)
    }
}

impl RenderedEncoding {
    /// Whether the encoding is grayscale, and whether it has a black channel.
    pub open spec fn spec_colour_model(&self) -> (bool, bool) {
        match self {
            RenderedEncoding::Enum { colour_space } => (*colour_space == ColourSpace::Grey, false),
            RenderedEncoding::IccProfile(profile) => icc_colour_model(profile@),
        }
    }

    /// Whether the encoding is grayscale, and whether it has a black channel.
    pub fn colour_model(&self) -> (r: (bool, bool))
        ensures
            r == self.spec_colour_model(),
    {
        match self {
            RenderedEncoding::Enum { colour_space } => {
                match colour_space {
                    ColourSpace::Grey => (true, false),
                    _ => (false, false),
                }
            },
            RenderedEncoding::IccProfile(profile) => {
                if profile.len() < 0x14 {
                    (false, false)
                } else if profile[0x10] == 0x47u8 && profile[0x11] == 0x52u8 && profile[0x12] == 0x41u8
                    && profile[0x13] == 0x59u8 {
                    (true, false)
                } else if profile[0x10] == 0x43u8 && profile[0x11] == 0x4du8 && profile[0x12] == 0x59u8
                    && profile[0x13] == 0x4bu8 {
                    (false, true)
                } else {
                    (false, false)
                }
            },
        }
    }
}

/// The kind of an extra channel.
#[derive(Debug, Copy, Clone, Eq, PartialEq, Hash, Structural)]
pub enum ExtraChannelType {
    Alpha,
    Depth,
    SpotColour,
    SelectionMask,
    Black,
    Cfa,
    Thermal,
    NonOptional,
    Optional,
}

impl ExtraChannelType {
    /// Returns `true` if the channel is an alpha channel.
    pub fn is_alpha(&self) -> (r: bool)
        ensures
            r == (*self == ExtraChannelType::Alpha),
    {
        match self {
            ExtraChannelType::Alpha => true,
            _ => false,
        }
    }

    /// Returns `true` if the channel is a black channel of CMYK image.
    pub fn is_black(&self) -> (r: bool)
        ensures
            r == (*self == ExtraChannelType::Black),
    {
        match self {
            ExtraChannelType::Black => true,
            _ => false,
        }
    }

    /// Returns `true` if the channel is a spot colour channel.
    pub fn is_spot_colour(&self) -> (r: bool)
        ensures
            r == (*self == ExtraChannelType::SpotColour),
    {
        match self {
            ExtraChannelType::SpotColour => true,
            _ => false,
        }
    }
}

/// Whether some extra channel is an alpha channel.
pub open spec fn has_alpha_channel(ec: Seq<ExtraChannelType>) -> bool {
    exists|i: int| 0 <= i < ec.len() && ec[i] == ExtraChannelType::Alpha
}

/// The pixel format of images rendered in `encoding` from an image with
/// extra channels of kinds `ec`.
pub open spec fn spec_pixel_format(encoding: RenderedEncoding, ec: Seq<ExtraChannelType>) -> PixelFormat {
    let (is_grayscale, has_black) = encoding.spec_colour_model();
    PixelFormat::spec_compose(is_grayscale, has_black, has_alpha_channel(ec))
}

/// The pixel format of images rendered in `encoding` from an image whose
/// extra channels are of kinds `ec`.
pub fn pixel_format_of(encoding: &RenderedEncoding, ec: &[ExtraChannelType]) -> (r: PixelFormat)
    ensures
        r == spec_pixel_format(*encoding, ec@),
{
    let (is_grayscale, has_black) = encoding.colour_model();
    let mut has_alpha = false;
    let mut i: usize = 0;
    while i < ec.len()
        invariant
            i <= ec@.len(),
            has_alpha == exists|j: int| 0 <= j < i && ec@[j] == ExtraChannelType::Alpha,
        decreases ec@.len() - i,
    {
        if ec[i].is_alpha() {
            has_alpha = true;
        }
        i = i + 1;
    }
    PixelFormat::compose(is_grayscale, has_black, has_alpha)
}

/// A pixel has one channel for grayscale or three for colour, one more
/// for black, and one more for alpha.
pub proof fn law_channels_count(format: PixelFormat)
    ensures
        format.spec_channels() == (if format.spec_is_grayscale() { 1nat } else { 3nat }) + (if format.spec_has_black() {
            1nat
        } else {
            0nat
        }) + (if format.spec_has_alpha() { 1nat } else { 0nat }),
        !(format.spec_is_grayscale() && format.spec_has_black()),
{
}

/// The rendered pixel format has alpha exactly when the image has an
/// alpha channel; it is grayscale exactly when the encoding is; and it has
/// black exactly when the encoding has black and is not grayscale.
pub proof fn law_pixel_format_follows_image(encoding: RenderedEncoding, ec: Seq<ExtraChannelType>)
    ensures
        spec_pixel_format(encoding, ec).spec_has_alpha() == has_alpha_channel(ec),
        spec_pixel_format(encoding, ec).spec_is_grayscale() == encoding.spec_colour_model().0,
        spec_pixel_format(encoding, ec).spec_has_black() == (encoding.spec_colour_model().1
            && !encoding.spec_colour_model().0),
        encoding == (RenderedEncoding::Enum { colour_space: ColourSpace::Grey }) ==> spec_pixel_format(
            encoding,
            ec,
        ).spec_is_grayscale(),
{
}

/// Cropping region information.
#[derive(Debug, Default, Copy, Clone)]
pub struct CropInfo {
    pub width: u32,
    pub height: u32,
    pub left: u32,
    pub top: u32,
}

/// A region of the image to render, with a signed position.
#[derive(Debug, Copy, Clone, PartialEq, Eq, Structural)]
pub struct Region {
    pub left: i32,
    pub top: i32,
    pub width: u32,
    pub height: u32,
}

impl From<CropInfo> for Region {
    fn from(value: CropInfo) -> (r: Region) {
        Region {
            left: value.left as i32,
            top: value.top as i32,
            width: value.width,
            height: value.height,
        }
    }
}

impl FromSpecImpl<CropInfo> for Region {
    open spec fn obeys_from_spec() -> bool {
        true
    }

    open spec fn from_spec(value: CropInfo) -> Region {
        Region {
            left: value.left as i32,
            top: value.top as i32,
            width: value.width,
            height: value.height,
        }
    }
}

/// The result of loading the keyframe.
#[derive(Debug)]
pub enum LoadResult {
    /// The frame is loaded with the given keyframe index.
    Done(usize),
    /// More data is needed to fully load the frame.
    NeedMoreData,
    /// No more frames are present.
    NoMoreFrames,
}

} // verus!

//! From the bytes of an image file to an `Image`: which codec a format hint
//! names, and how the raw pixels that the codec hands back become an image. The
//! codecs themselves are not part of this crate; `decode` is handed one.

use vstd::prelude::*;
use vstd::string::StringSliceAdditionalSpecFns;
use crate::image::{
    expected_len, image_descriptor, nonzero, DecodeError, Extent, Image, ImageView, TextureFormat,
};

verus! {

/// The container formats that a hint can name.
#[derive(Clone, Copy, Debug, PartialEq, Eq, Hash, Structural)]
pub enum ImageFormat {
    Png,
    Dds,
    Tga,
    Jpeg,
    Bmp,
    Ktx2,
    Basis,
    Hdr,
}

/// Which codecs are available. It is fixed when the program is built and does
/// not change while it runs.
#[derive(Clone, Copy, Debug, PartialEq, Eq, Structural)]
pub struct CompiledFormats {
    pub png: bool,
    pub dds: bool,
    pub tga: bool,
    pub jpeg: bool,
    pub bmp: bool,
    pub ktx2: bool,
    pub basis: bool,
    pub hdr: bool,
}

impl CompiledFormats {
    /// Whether the codec for `format` is available.
    pub open spec fn has(self, format: ImageFormat) -> bool {
        match format {
            ImageFormat::Png => self.png,
            ImageFormat::Dds => self.dds,
            ImageFormat::Tga => self.tga,
            ImageFormat::Jpeg => self.jpeg,
            ImageFormat::Bmp => self.bmp,
            ImageFormat::Ktx2 => self.ktx2,
            ImageFormat::Basis => self.basis,
            ImageFormat::Hdr => self.hdr,
        }
    }

    /// Whether the codec for `format` is available.
    pub fn supports(&self, format: ImageFormat) -> (r: bool)
        ensures
            r == self.has(format),
    {
        match format {
            ImageFormat::Png => self.png,
            ImageFormat::Dds => self.dds,
            ImageFormat::Tga => self.tga,
            ImageFormat::Jpeg => self.jpeg,
            ImageFormat::Bmp => self.bmp,
            ImageFormat::Ktx2 => self.ktx2,
            ImageFormat::Basis => self.basis,
            ImageFormat::Hdr => self.hdr,
        }
    }

    /// Every codec is available.
    pub fn all() -> (r: CompiledFormats)
        ensures
            forall|format: ImageFormat| r.has(format),
    {
        CompiledFormats {
            png: true,
            dds: true,
            tga: true,
            jpeg: true,
            bmp: true,
            ktx2: true,
            basis: true,
            hdr: true,
        }
    }

    /// No codec is available.
    pub fn none() -> (r: CompiledFormats)
        ensures
            forall|format: ImageFormat| !r.has(format),
    {
        CompiledFormats {
            png: false,
            dds: false,
            tga: false,
            jpeg: false,
            bmp: false,
            ktx2: false,
            basis: false,
            hdr: false,
        }
    }
}

/// The format that a hint names. A hint is a file extension without the dot or
/// a MIME type, in lower case.
pub open spec fn hinted_format(hint: Seq<char>) -> Option<ImageFormat> {
    if hint == "png"@ || hint == "image/png"@ {
        Some(ImageFormat::Png)
    } else if hint == "dds"@ || hint == "image/vnd-ms.dds"@ {
        Some(ImageFormat::Dds)
    } else if hint == "tga"@ || hint == "image/x-targa"@ || hint == "image/x-tga"@ {
        Some(ImageFormat::Tga)
    } else if hint == "jpg"@ || hint == "jpeg"@ || hint == "image/jpeg"@ {
        Some(ImageFormat::Jpeg)
    } else if hint == "bmp"@ || hint == "image/bmp"@ || hint == "image/x-bmp"@ {
        Some(ImageFormat::Bmp)
    } else if hint == "ktx2"@ || hint == "image/ktx2"@ {
        Some(ImageFormat::Ktx2)
    } else if hint == "basis"@ {
        Some(ImageFormat::Basis)
    } else if hint == "hdr"@ || hint == "image/vnd.radiance"@ {
        Some(ImageFormat::Hdr)
    } else {
        None
    }
}

/// Whether two strings are the same text.
fn same_text(a: &str, b: &str) -> (r: bool)
    ensures
        r == (a@ == b@),
{
    broadcast use vstd::utf8::encode_utf8_decode_utf8;

    let x = a.as_bytes();
    let y = b.as_bytes();
    if x.len() != y.len() {
        return false;
    }
    let mut i: usize = 0;
    while i < x.len()
        invariant
            i <= x.len(),
            x.len() == y.len(),
            x@ == a.spec_bytes(),
            y@ == b.spec_bytes(),
            forall|j: int| 0 <= j < i ==> x@[j] == y@[j],
        decreases x.len() - i,
    {
        if x[i] != y[i] {
            return false;
        }
        i = i + 1;
    }
    assert(x@ =~= y@);
    assert(vstd::utf8::decode_utf8(a.spec_bytes()) == a@);
    assert(vstd::utf8::decode_utf8(b.spec_bytes()) == b@);
    true
}

impl ImageFormat {
    /// The format that a hint names, if it names one.
    pub fn from_hint(hint: &str) -> (r: Option<ImageFormat>)
        ensures
            r == hinted_format(hint@),
    {
        if same_text(hint, "png") || same_text(hint, "image/png") {
            Some(ImageFormat::Png)
        } else if same_text(hint, "dds") || same_text(hint, "image/vnd-ms.dds") {
            Some(ImageFormat::Dds)
        } else if same_text(hint, "tga") || same_text(hint, "image/x-targa") || same_text(
            hint,
            "image/x-tga",
        ) {
            Some(ImageFormat::Tga)
        } else if same_text(hint, "jpg") || same_text(hint, "jpeg") || same_text(
            hint,
            "image/jpeg",
        ) {
            Some(ImageFormat::Jpeg)
        } else if same_text(hint, "bmp") || same_text(hint, "image/bmp") || same_text(
            hint,
            "image/x-bmp",
        ) {
            Some(ImageFormat::Bmp)
        } else if same_text(hint, "ktx2") || same_text(hint, "image/ktx2") {
            Some(ImageFormat::Ktx2)
        } else if same_text(hint, "basis") {
            Some(ImageFormat::Basis)
        } else if same_text(hint, "hdr") || same_text(hint, "image/vnd.radiance") {
            Some(ImageFormat::Hdr)
        } else {
            None
        }
    }
}

/// The codec that a request is for, or why there is none: the hint must name a
/// format whose codec is available, and there must be bytes to decode.
pub open spec fn selected(bytes: Seq<u8>, hint: Seq<char>, formats: CompiledFormats) -> Result<
    ImageFormat,
    DecodeError,
> {
    match hinted_format(hint) {
        Some(format) if formats.has(format) => if bytes.len() == 0 {
            Err(DecodeError::CorruptData)
        } else {
            Ok(format)
        },
        _ => Err(DecodeError::UnsupportedFormat),
    }
}

/// Decides which codec is to decode `bytes`. A hint that names no format, or a
/// format whose codec is not available, is `UnsupportedFormat`; otherwise an
/// empty byte sequence is `CorruptData`.
pub fn select_codec(bytes: &[u8], hint: &str, formats: &CompiledFormats) -> (r: Result<
    ImageFormat,
    DecodeError,
>)
    ensures
        r == selected(bytes@, hint@, *formats),
{
    match ImageFormat::from_hint(hint) {
        Some(format) => {
            if !formats.supports(format) {
                Err(DecodeError::UnsupportedFormat)
            } else if bytes.len() == 0 {
                Err(DecodeError::CorruptData)
            } else {
                Ok(format)
            }
        },
        None => Err(DecodeError::UnsupportedFormat),
    }
}

/// How a codec lays out the pixels it hands back.
#[derive(Clone, Copy, Debug, PartialEq, Eq, Hash, Structural)]
pub enum PixelLayout {
    /// One 8-bit grey sample.
    Luma8,
    /// Grey and alpha, 8 bits each.
    LumaAlpha8,
    /// Red, green, blue, 8 bits each.
    Rgb8,
    /// Red, green, blue, alpha, 8 bits each.
    Rgba8,
    /// One 16-bit grey sample.
    Luma16,
    /// Grey and alpha, 16 bits each.
    LumaAlpha16,
    /// Red, green, blue, alpha, 16 bits each.
    Rgba16,
    /// One 8-bit index into a palette.
    Indexed8,
}

impl PixelLayout {
    /// Bytes that one pixel occupies in the codec's buffer.
    pub open spec fn sample_size(self) -> nat {
        match self {
            PixelLayout::Luma8 => 1,
            PixelLayout::LumaAlpha8 => 2,
            PixelLayout::Rgb8 => 3,
            PixelLayout::Rgba8 => 4,
            PixelLayout::Luma16 => 2,
            PixelLayout::LumaAlpha16 => 4,
            PixelLayout::Rgba16 => 8,
            PixelLayout::Indexed8 => 1,
        }
    }

    /// The texture format that holds pixels of this layout. Three-channel
    /// pixels go into a four-channel format; palette indices have no format.
    /// Only 8-bit colour is marked as sRGB.
    pub open spec fn texture_format(self, is_srgb: bool) -> Option<TextureFormat> {
        match self {
            PixelLayout::Luma8 => Some(TextureFormat::R8Unorm),
            PixelLayout::LumaAlpha8 => Some(TextureFormat::Rg8Unorm),
            PixelLayout::Rgb8 | PixelLayout::Rgba8 => Some(
                if is_srgb {
                    TextureFormat::Rgba8UnormSrgb
                } else {
                    TextureFormat::Rgba8Unorm
                },
            ),
            PixelLayout::Luma16 => Some(TextureFormat::R16Unorm),
            PixelLayout::LumaAlpha16 => Some(TextureFormat::Rg16Unorm),
            PixelLayout::Rgba16 => Some(TextureFormat::Rgba16Unorm),
            PixelLayout::Indexed8 => None,
        }
    }

    /// The texture format that holds pixels of this layout, if there is one.
    pub fn format(self, is_srgb: bool) -> (r: Option<TextureFormat>)
        ensures
            r == self.texture_format(is_srgb),
    {
        match self {
            PixelLayout::Luma8 => Some(TextureFormat::R8Unorm),
            PixelLayout::LumaAlpha8 => Some(TextureFormat::Rg8Unorm),
            PixelLayout::Rgb8 | PixelLayout::Rgba8 => Some(
                if is_srgb {
                    TextureFormat::Rgba8UnormSrgb
                } else {
                    TextureFormat::Rgba8Unorm
                },
            ),
            PixelLayout::Luma16 => Some(TextureFormat::R16Unorm),
            PixelLayout::LumaAlpha16 => Some(TextureFormat::Rg16Unorm),
            PixelLayout::Rgba16 => Some(TextureFormat::Rgba16Unorm),
            PixelLayout::Indexed8 => None,
        }
    }
}

/// What a codec hands back, as a value.
pub struct PixelsView {
    pub width: u32,
    pub height: u32,
    pub layout: PixelLayout,
    pub data: Seq<u8>,
}

/// What a codec hands back: the size it read from the container, the layout of
/// its pixels, and the pixels, row by row.
#[derive(Debug)]
pub struct DecodedPixels {
    pub width: u32,
    pub height: u32,
    pub layout: PixelLayout,
    pub data: Vec<u8>,
}

impl View for DecodedPixels {
    type V = PixelsView;

    open spec fn view(&self) -> PixelsView {
        PixelsView {
            width: self.width,
            height: self.height,
            layout: self.layout,
            data: self.data@,
        }
    }
}

/// Three-channel pixels with an opaque alpha channel added to each.
pub open spec fn widened(data: Seq<u8>) -> Seq<u8> {
    Seq::new(
        (data.len() / 3 * 4) as nat,
        |i: int|
            if i % 4 == 3 {
                255u8
            } else {
                data[i / 4 * 3 + i % 4]
            },
    )
}

/// Adds an opaque alpha channel to every three-channel pixel.
fn widen_rgb(data: &Vec<u8>) -> (out: Vec<u8>)
    requires
        data@.len() % 3 == 0,
    ensures
        out@ == widened(data@),
{
    let count: usize = data.len() / 3;
    assert(data@.len() == 3 * count);
    let mut out: Vec<u8> = Vec::new();
    let mut p: usize = 0;
    while p < count
        invariant
            p <= count,
            data@.len() == 3 * count,
            3 * count <= usize::MAX,
            out@.len() == 4 * p,
            forall|i: int| 0 <= i < 4 * p ==> out@[i] == widened(data@)[i],
        decreases count - p,
    {
        let base: usize = p * 3;
        out.push(data[base]);
        out.push(data[base + 1]);
        out.push(data[base + 2]);
        out.push(255);
        p = p + 1;
    }
    assert(out@ =~= widened(data@));
    out
}

/// The image that raw pixels make, or why they make none. A layout without a
/// texture format is `UnsupportedFormat`. Otherwise a zero width or height,
/// or a buffer that is not exactly as long as width, height and layout ask
/// for, is `InvalidDimensions`. The image has one mip level and the default
/// sampler; three-channel pixels are widened to four channels.
pub open spec fn assembled(pixels: PixelsView, is_srgb: bool) -> Result<ImageView, DecodeError> {
    let extent = Extent { width: pixels.width, height: pixels.height };
    match pixels.layout.texture_format(is_srgb) {
        None => Err(DecodeError::UnsupportedFormat),
        Some(format) => if !nonzero(extent, 1) || pixels.data.len() != pixels.width as nat
            * pixels.height as nat * pixels.layout.sample_size() {
            Err(DecodeError::InvalidDimensions)
        } else {
            Ok(
                ImageView {
                    data: if pixels.layout is Rgb8 {
                        widened(pixels.data)
                    } else {
                        pixels.data
                    },
                    descriptor: image_descriptor(extent, format, 1),
                    sampler: None,
                },
            )
        },
    }
}

/// An image or an error, with the image as a value.
pub open spec fn outcome_view(r: Result<Image, DecodeError>) -> Result<ImageView, DecodeError> {
    match r {
        Ok(image) => Ok(image@),
        Err(e) => Err(e),
    }
}

/// Turns the raw pixels of a codec into an image.
pub fn assemble(pixels: DecodedPixels, is_srgb: bool) -> (r: Result<Image, DecodeError>)
    ensures
        outcome_view(r) == assembled(pixels@, is_srgb),
{
    let extent = Extent { width: pixels.width, height: pixels.height };
    let format = match pixels.layout.format(is_srgb) {
        Some(format) => format,
        None => {
            return Err(DecodeError::UnsupportedFormat);
        },
    };
    let ghost w = pixels.width as nat;
    let ghost h = pixels.height as nat;
    assert(expected_len(extent, format, 1) == w * h * format.pixel_size()) by (nonlinear_arith)
        requires
            expected_len(extent, format, 1) == w * h * format.pixel_size() * 1,
    ;
    match pixels.layout {
        PixelLayout::Rgb8 => {
            if pixels.width == 0 || pixels.height == 0 {
                return Err(DecodeError::InvalidDimensions);
            }
            assert(w * h <= 0xffff_ffff * 0xffff_ffff) by (nonlinear_arith)
                requires
                    w <= 0xffff_ffff,
                    h <= 0xffff_ffff,
            ;
            let area: u128 = pixels.width as u128 * pixels.height as u128;
            if pixels.data.len() as u128 != area * 3 {
                return Err(DecodeError::InvalidDimensions);
            }
            assert(w * h * 3 == area * 3);
            assert(w * h * 4 == area * 4) by (nonlinear_arith)
                requires
                    w * h == area,
            ;
            let wide = widen_rgb(&pixels.data);
            assert(wide@.len() == area * 4);
            Image::new(wide, extent, format, 1)
        },
        _ => {
            assert(format.pixel_size() == pixels.layout.sample_size());
            Image::new(pixels.data, extent, format, 1)
        },
    }
}

/// The result of decoding when the codec has answered: `None` from the codec
/// means that the container is malformed.
pub open spec fn finished(answer: Option<DecodedPixels>, is_srgb: bool) -> Result<
    ImageView,
    DecodeError,
> {
    match answer {
        None => Err(DecodeError::CorruptData),
        Some(pixels) => assembled(pixels@, is_srgb),
    }
}

/// Turns what the codec answered into an image or an error.
pub fn finish(answer: Option<DecodedPixels>, is_srgb: bool) -> (r: Result<Image, DecodeError>)
    ensures
        outcome_view(r) == finished(answer, is_srgb),
{
    match answer {
        None => Err(DecodeError::CorruptData),
        Some(pixels) => assemble(pixels, is_srgb),
    }
}

/// Decodes the bytes of an image file. The hint selects the codec; `codec` is
/// called once, with the selected format and the bytes, only if the hint names
/// an available codec and there are bytes. Its answer is turned into an image
/// as `finished` says. Nothing is cached and nothing is retried.
pub fn decode<C: Fn(ImageFormat, &[u8]) -> Option<DecodedPixels>>(
    bytes: &[u8],
    hint: &str,
    is_srgb: bool,
    formats: &CompiledFormats,
    codec: C,
) -> (r: Result<Image, DecodeError>)
    requires
        forall|format: ImageFormat, input: &[u8]| codec.requires((format, input)),
    ensures
        selected(bytes@, hint@, *formats) matches Err(e) ==> r == Err::<Image, DecodeError>(e),
        selected(bytes@, hint@, *formats) matches Ok(format) ==> exists|
            answer: Option<DecodedPixels>,
        |
            codec.ensures((format, bytes), answer) && outcome_view(r) == #[trigger] finished(
                answer,
                is_srgb,
            ),
{
    match select_codec(bytes, hint, formats) {
        Ok(format) => {
            let answer = codec(format, bytes);
            let ghost given = answer;
            let r = finish(answer, is_srgb);
            assert(outcome_view(r) == finished(given, is_srgb));
            r
        },
        Err(e) => Err(e),
    }
}

} // verus!

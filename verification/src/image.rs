//! The CPU-side image: raw pixel bytes together with the texture and sampler
//! descriptors that say how the GPU is to read them.

use vstd::prelude::*;

verus! {

/// Usage flag: the texture may be the source of a copy.
pub const USAGE_COPY_SRC: u32 = 1;

/// Usage flag: the texture may be the destination of a copy or an upload.
pub const USAGE_COPY_DST: u32 = 2;

/// Usage flag: the texture may be bound for sampling in a shader.
pub const USAGE_TEXTURE_BINDING: u32 = 4;

/// Usage flag: the texture may be bound as a storage texture.
pub const USAGE_STORAGE_BINDING: u32 = 8;

/// Usage flag: the texture may be a render target.
pub const USAGE_RENDER_ATTACHMENT: u32 = 16;

/// The usage of every texture made from an image asset: sampled, and filled by upload.
pub const IMAGE_USAGE: u32 = 6;

/// Why a byte sequence could not be turned into an image.
#[derive(Clone, Copy, Debug, PartialEq, Eq, Hash, Structural)]
pub enum DecodeError {
    /// The container is malformed.
    CorruptData,
    /// The format hint names no available codec, or the pixel layout has no texture format.
    UnsupportedFormat,
    /// A dimension is zero, or the byte buffer does not have the length the dimensions ask for.
    InvalidDimensions,
}

/// Pixel formats a texture can be declared with.
#[derive(Clone, Copy, Debug, PartialEq, Eq, Hash, Structural)]
pub enum TextureFormat {
    R8Unorm,
    Rg8Unorm,
    Rgba8Unorm,
    Rgba8UnormSrgb,
    Bgra8Unorm,
    Bgra8UnormSrgb,
    R16Unorm,
    Rg16Unorm,
    Rgba16Unorm,
}

impl TextureFormat {
    /// Bytes that one pixel occupies.
    pub open spec fn pixel_size(self) -> nat {
        match self {
            TextureFormat::R8Unorm => 1,
            TextureFormat::Rg8Unorm => 2,
            TextureFormat::Rgba8Unorm => 4,
            TextureFormat::Rgba8UnormSrgb => 4,
            TextureFormat::Bgra8Unorm => 4,
            TextureFormat::Bgra8UnormSrgb => 4,
            TextureFormat::R16Unorm => 2,
            TextureFormat::Rg16Unorm => 4,
            TextureFormat::Rgba16Unorm => 8,
        }
    }

    /// Bytes that one pixel occupies.
    pub fn bytes_per_pixel(self) -> (n: u32)
        ensures
            n == self.pixel_size(),
            1 <= n <= 8,
    {
        match self {
            TextureFormat::R8Unorm => 1,
            TextureFormat::Rg8Unorm => 2,
            TextureFormat::Rgba8Unorm => 4,
            TextureFormat::Rgba8UnormSrgb => 4,
            TextureFormat::Bgra8Unorm => 4,
            TextureFormat::Bgra8UnormSrgb => 4,
            TextureFormat::R16Unorm => 2,
            TextureFormat::Rg16Unorm => 4,
            TextureFormat::Rgba16Unorm => 8,
        }
    }
}

/// Width and height of a texture, in pixels.
#[derive(Clone, Copy, Debug, PartialEq, Eq, Hash, Structural)]
pub struct Extent {
    pub width: u32,
    pub height: u32,
}

/// Everything the GPU needs to know to allocate a texture. Textures are pooled by
/// this value: two descriptors are the same key exactly when all fields agree.
#[derive(Clone, Copy, Debug, PartialEq, Eq, Hash, Structural)]
pub struct TextureDescriptor {
    pub extent: Extent,
    pub format: TextureFormat,
    pub usage: u32,
    pub mip_count: u32,
    pub sample_count: u32,
}

/// How texels are interpolated when a texture is sampled.
#[derive(Clone, Copy, Debug, PartialEq, Eq, Hash, Structural)]
pub enum FilterMode {
    Nearest,
    Linear,
}

/// What a sampler returns for coordinates outside the texture.
#[derive(Clone, Copy, Debug, PartialEq, Eq, Hash, Structural)]
pub enum AddressMode {
    ClampToEdge,
    Repeat,
    MirrorRepeat,
}

/// Filtering and addressing of a sampler.
#[derive(Clone, Copy, Debug, PartialEq, Eq, Hash, Structural)]
pub struct SamplerDescriptor {
    pub filter: FilterMode,
    pub address_mode: AddressMode,
}

/// The byte length that a pixel buffer must have: one full-size level per mip level.
pub open spec fn expected_len(extent: Extent, format: TextureFormat, mip_count: u32) -> nat {
    extent.width as nat * extent.height as nat * format.pixel_size() * mip_count as nat
}

/// Dimensions that describe at least one pixel in at least one level.
pub open spec fn nonzero(extent: Extent, mip_count: u32) -> bool {
    extent.width > 0 && extent.height > 0 && mip_count > 0
}

/// The descriptor of the texture that holds an image asset.
pub open spec fn image_descriptor(
    extent: Extent,
    format: TextureFormat,
    mip_count: u32,
) -> TextureDescriptor {
    TextureDescriptor { extent, format, usage: IMAGE_USAGE, mip_count, sample_count: 1 }
}

/// What an image is, as a value: its bytes and its two descriptors.
pub struct ImageView {
    pub data: Seq<u8>,
    pub descriptor: TextureDescriptor,
    pub sampler: Option<SamplerDescriptor>,
}

impl ImageView {
    /// The bytes fill the declared dimensions exactly, and there is at least one pixel.
    pub open spec fn consistent(self) -> bool {
        &&& nonzero(self.descriptor.extent, self.descriptor.mip_count)
        &&& self.data.len() == expected_len(
            self.descriptor.extent,
            self.descriptor.format,
            self.descriptor.mip_count,
        )
    }
}

/// A decoded image. Its byte buffer always has exactly the length that its
/// descriptor asks for; a sampler of `None` stands for the default sampler.
#[derive(Debug)]
pub struct Image {
    data: Vec<u8>,
    descriptor: TextureDescriptor,
    sampler: Option<SamplerDescriptor>,
}

impl View for Image {
    type V = ImageView;

    closed spec fn view(&self) -> ImageView {
        ImageView { data: self.data@, descriptor: self.descriptor, sampler: self.sampler }
    }
}

/// The product `width * height * pixel size * mip levels`, which always fits 128 bits.
fn required_len(extent: Extent, format: TextureFormat, mip_count: u32) -> (n: u128)
    ensures
        n == expected_len(extent, format, mip_count),
{
    let w: u128 = extent.width as u128;
    let h: u128 = extent.height as u128;
    let b: u128 = format.bytes_per_pixel() as u128;
    let m: u128 = mip_count as u128;
    assert(w * h <= 0xffff_ffff * 0xffff_ffff) by (nonlinear_arith)
        requires
            w <= 0xffff_ffff,
            h <= 0xffff_ffff,
    ;
    let area: u128 = w * h;
    assert(area * b <= 0xffff_ffff * 0xffff_ffff * 8) by (nonlinear_arith)
        requires
            area <= 0xffff_ffff * 0xffff_ffff,
            b <= 8,
    ;
    let level: u128 = area * b;
    assert(level * m <= 0xffff_ffff * 0xffff_ffff * 8 * 0xffff_ffff) by (nonlinear_arith)
        requires
            level <= 0xffff_ffff * 0xffff_ffff * 8,
            m <= 0xffff_ffff,
    ;
    level * m
}

impl Image {
    #[verifier::type_invariant]
    spec fn well_formed(self) -> bool {
        self@.consistent()
    }

    /// Builds an image from a pixel buffer and its declared shape. The buffer is
    /// taken as it is, never cut or padded: it is accepted exactly when no
    /// dimension is zero and its length is the product of width, height, pixel
    /// size and mip levels.
    pub fn new(data: Vec<u8>, extent: Extent, format: TextureFormat, mip_count: u32) -> (r: Result<
        Image,
        DecodeError,
    >)
        ensures
            r is Ok <==> nonzero(extent, mip_count) && data@.len() == expected_len(
                extent,
                format,
                mip_count,
            ),
            r matches Ok(image) ==> image@ == (ImageView {
                data: data@,
                descriptor: image_descriptor(extent, format, mip_count),
                sampler: None,
            }),
            r matches Err(e) ==> e == DecodeError::InvalidDimensions,
    {
        if extent.width == 0 || extent.height == 0 || mip_count == 0 {
            return Err(DecodeError::InvalidDimensions);
        }
        let needed: u128 = required_len(extent, format, mip_count);
        if data.len() as u128 != needed {
            return Err(DecodeError::InvalidDimensions);
        }
        Ok(
            Image {
                data,
                descriptor: TextureDescriptor {
                    extent,
                    format,
                    usage: IMAGE_USAGE,
                    mip_count,
                    sample_count: 1,
                },
                sampler: None,
            },
        )
    }

    /// The same image, sampled with `sampler` instead of the default sampler.
    pub fn with_sampler(self, sampler: SamplerDescriptor) -> (r: Image)
        ensures
            r@ == (ImageView { sampler: Some(sampler), ..self@ }),
    {
        proof {
            use_type_invariant(&self);
        }
        Image { data: self.data, descriptor: self.descriptor, sampler: Some(sampler) }
    }

    /// The pixel bytes.
    pub fn data(&self) -> (r: &Vec<u8>)
        ensures
            r@ == self@.data,
            self@.consistent(),
    {
        proof {
            use_type_invariant(self);
        }
        &self.data
    }

    /// The descriptor of the texture that is to hold this image.
    pub fn descriptor(&self) -> (r: TextureDescriptor)
        ensures
            r == self@.descriptor,
            self@.consistent(),
    {
        proof {
            use_type_invariant(self);
        }
        self.descriptor
    }

    /// Width and height.
    pub fn extent(&self) -> (r: Extent)
        ensures
            r == self@.descriptor.extent,
    {
        self.descriptor.extent
    }

    /// The sampler the image asks for, `None` for the default sampler.
    pub fn sampler(&self) -> (r: Option<SamplerDescriptor>)
        ensures
            r == self@.sampler,
    {
        self.sampler
    }

    /// Length of the pixel buffer, which is the length the descriptor asks for.
    pub fn byte_len(&self) -> (n: usize)
        ensures
            n == self@.data.len(),
            n == expected_len(
                self@.descriptor.extent,
                self@.descriptor.format,
                self@.descriptor.mip_count,
            ),
    {
        proof {
            use_type_invariant(self);
        }
        self.data.len()
    }
}

impl Clone for Image {
    fn clone(&self) -> (r: Image)
        ensures
            r@ == self@,
    {
        proof {
            use_type_invariant(self);
        }
        let data = self.data.clone();
        assert(data@ =~= self.data@);
        Image { data, descriptor: self.descriptor, sampler: self.sampler }
    }
}

impl Default for Image {
    /// One opaque white pixel.
    fn default() -> (r: Image)
        ensures
            r@ == white_pixel(),
    {
        let mut data: Vec<u8> = Vec::new();
        data.push(255);
        data.push(255);
        data.push(255);
        data.push(255);
        assert(data@ =~= seq![255u8, 255u8, 255u8, 255u8]);
        let extent = Extent { width: 1, height: 1 };
        assert(TextureFormat::Rgba8UnormSrgb.pixel_size() == 4);
        assert(1nat * 1nat * 4nat * 1nat == 4nat) by (nonlinear_arith);
        Image {
            data,
            descriptor: TextureDescriptor {
                extent,
                format: TextureFormat::Rgba8UnormSrgb,
                usage: IMAGE_USAGE,
                mip_count: 1,
                sample_count: 1,
            },
            sampler: None,
        }
    }
}

/// The default image: one opaque white sRGB pixel, sampled with the default sampler.
pub open spec fn white_pixel() -> ImageView {
    ImageView {
        data: seq![255u8, 255u8, 255u8, 255u8],
        descriptor: image_descriptor(
            Extent { width: 1, height: 1 },
            TextureFormat::Rgba8UnormSrgb,
            1,
        ),
        sampler: None,
    }
}

} // verus!

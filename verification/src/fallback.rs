//! The fallback resource: the one default texture that stands in for every
//! image that is not ready, has failed, or is missing.

use vstd::prelude::*;
use crate::device::{
    whole_view, DeviceError, GpuDevice, GpuImage, GpuSampler, GpuTexture, GpuView, ViewDescriptor,
};
use crate::image::{
    image_descriptor, white_pixel, Extent, Image, TextureDescriptor, TextureFormat,
};

verus! {

/// The fixed descriptor of the fallback texture: one sRGB pixel, one level.
pub open spec fn fallback_descriptor() -> TextureDescriptor {
    image_descriptor(Extent { width: 1, height: 1 }, TextureFormat::Rgba8UnormSrgb, 1)
}

/// The fallback texture with its view and sampler. It is created once, outside
/// the texture pool, so the pool neither counts nor evicts it.
#[derive(Clone, Copy, Debug, PartialEq, Eq, Structural)]
pub struct FallbackImage {
    pub gpu: GpuImage,
}

impl FallbackImage {
    /// The fixed descriptor of the fallback texture.
    pub fn descriptor() -> (r: TextureDescriptor)
        ensures
            r == fallback_descriptor(),
    {
        Image::default().descriptor()
    }

    /// Creates the fallback texture on the device, fills it with one opaque white
    /// pixel, and pairs it with `sampler`. If the device refuses the texture, its
    /// error is returned.
    ///
    /// The device is asked for a texture of the fallback descriptor. If it
    /// refuses, nothing more is asked of it and its error is the result. If it
    /// answers with a texture, the white pixel is uploaded into that texture, a
    /// view of the whole texture is asked for, and the result is that texture
    /// and that view with `sampler` and the size of one pixel.
    pub fn create<D: GpuDevice>(device: &mut D, sampler: GpuSampler) -> (r: Result<
        FallbackImage,
        DeviceError,
    >)
        ensures
            r matches Ok(fallback) ==> fallback.gpu.sampler == sampler && fallback.gpu.extent == (
            Extent { width: 1, height: 1 }),
            exists|asked: &mut D, answer: Result<GpuTexture, DeviceError>|
                {
                    &&& *asked == *old(device)
                    &&& #[trigger] call_ensures(
                        D::create_texture,
                        (asked, &fallback_descriptor()),
                        answer,
                    )
                    &&& match answer {
                        Err(e) => r == Err::<FallbackImage, DeviceError>(e) && *final(device)
                            == *final(asked),
                        Ok(texture) => exists|
                            filled: &mut D,
                            pixels: &[u8],
                            viewed: &mut D,
                            view: GpuView,
                        |
                            {
                                &&& *filled == *final(asked)
                                &&& pixels@ == white_pixel().data
                                &&& #[trigger] call_ensures(
                                    D::upload,
                                    (filled, texture, pixels),
                                    (),
                                )
                                &&& *viewed == *final(filled)
                                &&& #[trigger] call_ensures(
                                    D::create_view,
                                    (viewed, texture, &whole_view(fallback_descriptor())),
                                    view,
                                )
                                &&& *final(device) == *final(viewed)
                                &&& r == Ok::<FallbackImage, DeviceError>(
                                    FallbackImage {
                                        gpu: GpuImage {
                                            texture,
                                            view,
                                            sampler,
                                            extent: Extent { width: 1, height: 1 },
                                        },
                                    },
                                )
                            },
                    }
                },
    {
        let pixel = Image::default();
        let descriptor = pixel.descriptor();
        match device.create_texture(&descriptor) {
            Ok(texture) => {
                device.upload(texture, pixel.data().as_slice());
                let view = device.create_view(texture, &ViewDescriptor::whole(&descriptor));
                Ok(
                    FallbackImage {
                        gpu: GpuImage { texture, view, sampler, extent: descriptor.extent },
                    },
                )
            },
            Err(e) => Err(e),
        }
    }
}

} // verus!

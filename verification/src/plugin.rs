//! Setting up the image pipeline: the default image in the application world,
//! and a render world with default sampler, fallback and empty texture pool.

use vstd::prelude::*;
use crate::assets::{AssetTable, ChangeView};
use crate::device::{
    whole_view, DeviceError, GpuDevice, GpuImage, GpuSampler, GpuTexture, GpuView,
};
use crate::fallback::fallback_descriptor;
use crate::image::{white_pixel, AddressMode, Extent, FilterMode, Image, SamplerDescriptor};
use crate::render::{RenderView, RenderWorld, Resident};
use crate::texture_cache::{CacheState, DEFAULT_EVICTION_THRESHOLD};

verus! {

/// What the pipeline is set up with. It is read once, when the pipeline is built.
#[derive(Clone, Copy, Debug, PartialEq, Eq, Structural)]
pub struct ImageSettings {
    /// The sampler of every image that does not ask for its own.
    pub default_sampler: SamplerDescriptor,
    /// Frames that the texture pool keeps a released texture.
    pub eviction_threshold: u64,
}

impl ImageSettings {
    /// Linear filtering, clamped addressing, and the default eviction threshold.
    pub fn default_linear() -> (r: ImageSettings)
        ensures
            r == (ImageSettings {
                default_sampler: SamplerDescriptor {
                    filter: FilterMode::Linear,
                    address_mode: AddressMode::ClampToEdge,
                },
                eviction_threshold: DEFAULT_EVICTION_THRESHOLD,
            }),
    {
        ImageSettings {
            default_sampler: SamplerDescriptor {
                filter: FilterMode::Linear,
                address_mode: AddressMode::ClampToEdge,
            },
            eviction_threshold: DEFAULT_EVICTION_THRESHOLD,
        }
    }

    /// Nearest filtering, clamped addressing, and the default eviction threshold.
    pub fn default_nearest() -> (r: ImageSettings)
        ensures
            r == (ImageSettings {
                default_sampler: SamplerDescriptor {
                    filter: FilterMode::Nearest,
                    address_mode: AddressMode::ClampToEdge,
                },
                eviction_threshold: DEFAULT_EVICTION_THRESHOLD,
            }),
    {
        ImageSettings {
            default_sampler: SamplerDescriptor {
                filter: FilterMode::Nearest,
                address_mode: AddressMode::ClampToEdge,
            },
            eviction_threshold: DEFAULT_EVICTION_THRESHOLD,
        }
    }
}

impl Default for ImageSettings {
    fn default() -> (r: ImageSettings)
        ensures
            r == (ImageSettings {
                default_sampler: SamplerDescriptor {
                    filter: FilterMode::Linear,
                    address_mode: AddressMode::ClampToEdge,
                },
                eviction_threshold: DEFAULT_EVICTION_THRESHOLD,
            }),
    {
        ImageSettings::default_linear()
    }
}

/// Sets up images as assets that are extracted and prepared for the GPU.
#[derive(Clone, Copy, Debug, Default)]
pub struct ImagePlugin;

impl ImagePlugin {
    /// Builds the application side alone, for an application without a render
    /// side: the default image, one white pixel, is stored under the default
    /// handle, untracked. No device is asked for anything and no render world
    /// is made.
    pub fn build_headless(&self, assets: &mut AssetTable)
        ensures
            final(assets)@ == old(assets)@.with_default(white_pixel()),
    {
        assets.set_default_image(Image::default());
    }

    /// Builds the pipeline. In the application world the default image, one
    /// white pixel, is stored under the default handle, untracked. For the
    /// render side the default sampler and the fallback texture are created on
    /// the device, and the render world starts with them, an empty texture pool
    /// with the configured eviction threshold, nothing prepared and nothing
    /// queued. If the device refuses the fallback texture, its error is
    /// returned; the application world has its default image all the same.
    ///
    /// The device is asked for a sampler of the settings' default sampler, then
    /// for a texture of the fallback descriptor. If it refuses the texture,
    /// nothing more is asked of it and its error is the result. If it answers
    /// with a texture, the white pixel is uploaded into it and a view of the
    /// whole texture is asked for; the new world has that texture and view with
    /// that sampler as its fallback and that sampler as its default sampler.
    pub fn build<D: GpuDevice>(
        &self,
        assets: &mut AssetTable,
        settings: &ImageSettings,
        device: &mut D,
    ) -> (r: Result<RenderWorld, DeviceError>)
        ensures
            final(assets)@ == old(assets)@.with_default(white_pixel()),
            r matches Ok(world) ==> {
                &&& world@.wf()
                &&& world@.cache == (CacheState {
                    slots: Seq::empty(),
                    frame: 0,
                    threshold: settings.eviction_threshold as int,
                })
                &&& world@.resident == Seq::<Option<Resident>>::empty()
                &&& world@.queue == Seq::<ChangeView>::empty()
                &&& world@.fallback.sampler == world@.default_sampler
            },
            exists|
                sampled: &mut D,
                sampler: GpuSampler,
                asked: &mut D,
                answer: Result<GpuTexture, DeviceError>,
            |
                {
                    &&& *sampled == *old(device)
                    &&& #[trigger] call_ensures(
                        D::create_sampler,
                        (sampled, &settings.default_sampler),
                        sampler,
                    )
                    &&& *asked == *final(sampled)
                    &&& #[trigger] call_ensures(
                        D::create_texture,
                        (asked, &fallback_descriptor()),
                        answer,
                    )
                    &&& match answer {
                        Err(e) => r matches Err(refused) && refused == e && *final(device)
                            == *final(asked),
                        Ok(texture) => exists|
                            filled: &mut D,
                            pixels: &[u8],
                            viewed: &mut D,
                            view: GpuView,
                        |
                            {
                                &&& *filled == *final(asked)
                                &&& pixels@ == white_pixel().data
                                &&& #[trigger] call_ensures(
                                    D::upload,
                                    (filled, texture, pixels),
                                    (),
                                )
                                &&& *viewed == *final(filled)
                                &&& #[trigger] call_ensures(
                                    D::create_view,
                                    (viewed, texture, &whole_view(fallback_descriptor())),
                                    view,
                                )
                                &&& *final(device) == *final(viewed)
                                &&& r matches Ok(world)
                                &&& world@ == (RenderView {
                                    cache: CacheState {
                                        slots: Seq::empty(),
                                        frame: 0,
                                        threshold: settings.eviction_threshold as int,
                                    },
                                    fallback: GpuImage {
                                        texture,
                                        view,
                                        sampler,
                                        extent: Extent { width: 1, height: 1 },
                                    },
                                    default_sampler: sampler,
                                    resident: Seq::empty(),
                                    queue: Seq::empty(),
                                })
                            },
                    }
                },
    {
        self.build_headless(assets);
        RenderWorld::new(device, &settings.default_sampler, settings.eviction_threshold)
    }
}

} // verus!

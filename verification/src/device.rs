//! The boundary to the GPU device: the handles it gives out, the errors it
//! reports, and the four operations this crate asks of it.

use vstd::prelude::*;
use crate::image::{Extent, SamplerDescriptor, TextureDescriptor};

verus! {

/// A texture that lives on the device, known by the number the device gave it.
#[derive(Clone, Copy, Debug, PartialEq, Eq, Hash, Structural)]
pub struct GpuTexture {
    pub id: u64,
}

/// A view of a device texture.
#[derive(Clone, Copy, Debug, PartialEq, Eq, Hash, Structural)]
pub struct GpuView {
    pub id: u64,
}

/// A sampler that lives on the device.
#[derive(Clone, Copy, Debug, PartialEq, Eq, Hash, Structural)]
pub struct GpuSampler {
    pub id: u64,
}

/// Why the device could not create a texture.
#[derive(Clone, Copy, Debug, PartialEq, Eq, Hash, Structural)]
pub enum DeviceError {
    OutOfMemory,
    InvalidDescriptor,
}

/// Which mip levels of a texture a view shows.
#[derive(Clone, Copy, Debug, PartialEq, Eq, Hash, Structural)]
pub struct ViewDescriptor {
    pub base_mip: u32,
    pub mip_count: u32,
}

/// The view that shows every level of a texture made from `descriptor`.
pub open spec fn whole_view(descriptor: TextureDescriptor) -> ViewDescriptor {
    ViewDescriptor { base_mip: 0, mip_count: descriptor.mip_count }
}

impl ViewDescriptor {
    /// The view that shows every level of a texture made from `descriptor`.
    pub fn whole(descriptor: &TextureDescriptor) -> (r: ViewDescriptor)
        ensures
            r == whole_view(*descriptor),
    {
        ViewDescriptor { base_mip: 0, mip_count: descriptor.mip_count }
    }
}

/// What rendering code binds for one image: texture, view, sampler and size.
#[derive(Clone, Copy, Debug, PartialEq, Eq, Hash, Structural)]
pub struct GpuImage {
    pub texture: GpuTexture,
    pub view: GpuView,
    pub sampler: GpuSampler,
    pub extent: Extent,
}

/// The GPU device. Nothing is assumed of what an implementation returns: every
/// caller in this crate states what holds for each possible answer.
pub trait GpuDevice {
    /// Allocates a texture for `descriptor`, or reports at once why it cannot.
    fn create_texture(&mut self, descriptor: &TextureDescriptor) -> Result<GpuTexture, DeviceError>;

    /// Creates a view of `texture`.
    fn create_view(&mut self, texture: GpuTexture, descriptor: &ViewDescriptor) -> GpuView;

    /// Creates a sampler.
    fn create_sampler(&mut self, descriptor: &SamplerDescriptor) -> GpuSampler;

    /// Copies `bytes` into `texture`.
    fn upload(&mut self, texture: GpuTexture, bytes: &[u8]);
}

/// One request to the device together with what the device answered.
pub enum DeviceCall {
    CreateTexture { wanted: TextureDescriptor, created: Result<GpuTexture, DeviceError> },
    CreateView { of: GpuTexture, levels: ViewDescriptor, view: GpuView },
    CreateSampler { sampling: SamplerDescriptor, sampler: GpuSampler },
    Upload { into: GpuTexture, bytes: Seq<u8> },
}

/// Names position `i` in a sequence of calls. It holds of every position.
pub open spec fn at(i: int) -> bool {
    true
}

/// The device behind `device` was asked what `call` says, and answered what
/// `call` says. Nothing is assumed of any device: for a device that is not
/// known, this holds of a call only where the call was made.
pub open spec fn answered<D: GpuDevice>(device: &mut D, call: DeviceCall) -> bool {
    match call {
        DeviceCall::CreateTexture { wanted, created } => call_ensures(
            D::create_texture,
            (device, &wanted),
            created,
        ),
        DeviceCall::CreateView { of, levels, view } => call_ensures(
            D::create_view,
            (device, of, &levels),
            view,
        ),
        DeviceCall::CreateSampler { sampling, sampler } => call_ensures(
            D::create_sampler,
            (device, &sampling),
            sampler,
        ),
        DeviceCall::Upload { into, bytes } => exists|pixels: &[u8]|
            pixels@ == bytes && #[trigger] call_ensures(D::upload, (device, into, pixels), ()),
    }
}

} // verus!

use texture_pipeline::assets::{default_handle, AssetTable, Handle, LoadState};
use texture_pipeline::device::{
    DeviceError, GpuDevice, GpuSampler, GpuTexture, GpuView, ViewDescriptor,
};
use texture_pipeline::fallback::FallbackImage;
use texture_pipeline::image::{
    AddressMode, DecodeError, Extent, FilterMode, Image, SamplerDescriptor, TextureDescriptor,
    TextureFormat, IMAGE_USAGE,
};
use texture_pipeline::loader::{decode, CompiledFormats, DecodedPixels, PixelLayout};
use texture_pipeline::plugin::{ImagePlugin, ImageSettings};
use texture_pipeline::render::{extract, run_frame, PrepareFailure, RenderWorld};
use texture_pipeline::texture_cache::{TextureCache, DEFAULT_EVICTION_THRESHOLD};

/// A device that hands out consecutive numbers and counts what it is asked for.
#[derive(Clone, Debug, PartialEq)]
struct TestDevice {
    next_id: u64,
    textures: Vec<(u64, TextureDescriptor)>,
    views: Vec<(u64, ViewDescriptor)>,
    samplers: Vec<SamplerDescriptor>,
    uploads: Vec<(u64, Vec<u8>)>,
    refuse: Option<DeviceError>,
    refuse_bigger_than: Option<u32>,
}

impl TestDevice {
    fn new() -> TestDevice {
        TestDevice {
            next_id: 1,
            textures: Vec::new(),
            views: Vec::new(),
            samplers: Vec::new(),
            uploads: Vec::new(),
            refuse: None,
            refuse_bigger_than: None,
        }
    }

    fn fresh(&mut self) -> u64 {
        let id = self.next_id;
        self.next_id += 1;
        id
    }
}

impl GpuDevice for TestDevice {
    fn create_texture(&mut self, descriptor: &TextureDescriptor) -> Result<GpuTexture, DeviceError> {
        if let Some(error) = self.refuse {
            return Err(error);
        }
        if let Some(limit) = self.refuse_bigger_than {
            if descriptor.extent.width > limit {
                return Err(DeviceError::OutOfMemory);
            }
        }
        let id = self.fresh();
        self.textures.push((id, *descriptor));
        Ok(GpuTexture { id })
    }

    fn create_view(&mut self, texture: GpuTexture, descriptor: &ViewDescriptor) -> GpuView {
        let id = self.fresh();
        self.views.push((texture.id, *descriptor));
        GpuView { id }
    }

    fn create_sampler(&mut self, descriptor: &SamplerDescriptor) -> GpuSampler {
        let id = self.fresh();
        self.samplers.push(*descriptor);
        GpuSampler { id }
    }

    fn upload(&mut self, texture: GpuTexture, bytes: &[u8]) {
        self.uploads.push((texture.id, bytes.to_vec()));
    }
}

fn descriptor(width: u32, height: u32) -> TextureDescriptor {
    TextureDescriptor {
        extent: Extent { width, height },
        format: TextureFormat::Rgba8Unorm,
        usage: IMAGE_USAGE,
        mip_count: 1,
        sample_count: 1,
    }
}

fn rgba(width: u32, height: u32, value: u8) -> Image {
    let len = (width * height * 4) as usize;
    Image::new(vec![value; len], Extent { width, height }, TextureFormat::Rgba8Unorm, 1).unwrap()
}

fn linear() -> SamplerDescriptor {
    SamplerDescriptor { filter: FilterMode::Linear, address_mode: AddressMode::ClampToEdge }
}

fn world(device: &mut TestDevice) -> RenderWorld {
    RenderWorld::new(device, &linear(), DEFAULT_EVICTION_THRESHOLD).unwrap()
}

// ---- the texture pool ----

#[test]
fn default_threshold_is_three_frames() {
    assert_eq!(DEFAULT_EVICTION_THRESHOLD, 3);
}

#[test]
fn new_cache_is_empty_at_frame_zero() {
    let cache = TextureCache::new(5);
    assert_eq!(cache.frame(), 0);
    assert_eq!(cache.threshold(), 5);
    assert_eq!(cache.slot_count(), 0);
    assert_eq!(cache.entry_count(), 0);
    assert_eq!(cache.entry(0), None);
}

#[test]
fn first_acquire_allocates() {
    let mut device = TestDevice::new();
    let mut cache = TextureCache::new(3);
    let handle = cache.acquire(&mut device, &descriptor(2, 2)).unwrap();
    assert_eq!(device.textures, vec![(handle.texture.id, descriptor(2, 2))]);
    assert_eq!(device.views, vec![(handle.texture.id, ViewDescriptor { base_mip: 0, mip_count: 1 })]);
    assert_eq!(handle.slot, 0);
    assert_eq!(cache.entry_count(), 1);
    let entry = cache.entry(0).unwrap();
    assert_eq!(entry.descriptor, descriptor(2, 2));
    assert_eq!(entry.texture, handle.texture);
    assert_eq!(entry.view, handle.view);
    assert!(entry.in_use);
    assert_eq!(entry.last_used, 0);
}

#[test]
fn acquire_release_acquire_is_a_hit() {
    let mut device = TestDevice::new();
    let mut cache = TextureCache::new(3);
    let first = cache.acquire(&mut device, &descriptor(2, 2)).unwrap();
    assert!(cache.release(&first));
    let before = device.clone();
    let second = cache.acquire(&mut device, &descriptor(2, 2)).unwrap();
    assert_eq!(device, before);
    assert_eq!(second, first);
    assert_eq!(cache.entry_count(), 1);
    assert!(cache.entry(0).unwrap().in_use);
}

#[test]
fn texture_in_use_is_not_handed_out_twice() {
    let mut device = TestDevice::new();
    let mut cache = TextureCache::new(3);
    let first = cache.acquire(&mut device, &descriptor(2, 2)).unwrap();
    let second = cache.acquire(&mut device, &descriptor(2, 2)).unwrap();
    assert_ne!(first.texture, second.texture);
    assert_ne!(first.slot, second.slot);
    assert_eq!(device.textures.len(), 2);
    assert_eq!(cache.entry_count(), 2);
}

#[test]
fn other_descriptor_is_a_miss() {
    let mut device = TestDevice::new();
    let mut cache = TextureCache::new(3);
    let first = cache.acquire(&mut device, &descriptor(2, 2)).unwrap();
    cache.release(&first);
    let other = TextureDescriptor { mip_count: 2, ..descriptor(2, 2) };
    let second = cache.acquire(&mut device, &other).unwrap();
    assert_ne!(second.texture, first.texture);
    assert_eq!(device.textures.len(), 2);
    assert!(!cache.entry(first.slot).unwrap().in_use);
}

#[test]
fn lowest_free_match_is_handed_out() {
    let mut device = TestDevice::new();
    let mut cache = TextureCache::new(3);
    let a = cache.acquire(&mut device, &descriptor(2, 2)).unwrap();
    let b = cache.acquire(&mut device, &descriptor(2, 2)).unwrap();
    cache.release(&b);
    cache.release(&a);
    assert_eq!(cache.acquire(&mut device, &descriptor(2, 2)).unwrap(), a);
    assert_eq!(cache.acquire(&mut device, &descriptor(2, 2)).unwrap(), b);
    assert_eq!(device.textures.len(), 2);
}

#[test]
fn take_free_never_allocates() {
    let mut device = TestDevice::new();
    let mut cache = TextureCache::new(3);
    assert_eq!(cache.take_free(&descriptor(2, 2)), None);
    let a = cache.acquire(&mut device, &descriptor(2, 2)).unwrap();
    assert_eq!(cache.take_free(&descriptor(2, 2)), None);
    cache.release(&a);
    assert_eq!(cache.take_free(&descriptor(4, 4)), None);
    assert_eq!(cache.take_free(&descriptor(2, 2)), Some(a));
}

#[test]
fn adopt_fills_the_lowest_empty_slot() {
    let mut cache = TextureCache::new(0);
    let a = cache.adopt(&descriptor(1, 1), GpuTexture { id: 10 }, GpuView { id: 11 });
    let b = cache.adopt(&descriptor(1, 1), GpuTexture { id: 20 }, GpuView { id: 21 });
    assert_eq!((a.slot, b.slot), (0, 1));
    cache.release(&a);
    let gone = cache.end_frame();
    assert_eq!(gone, vec![GpuTexture { id: 10 }]);
    assert_eq!(cache.slot_count(), 2);
    assert_eq!(cache.entry_count(), 1);
    let c = cache.adopt(&descriptor(3, 3), GpuTexture { id: 30 }, GpuView { id: 31 });
    assert_eq!(c.slot, 0);
    assert_eq!(cache.entry(0).unwrap().last_used, 1);
    assert_eq!(cache.slot_count(), 2);
}

#[test]
fn release_of_an_unknown_handle_changes_nothing() {
    let mut device = TestDevice::new();
    let mut cache = TextureCache::new(3);
    let a = cache.acquire(&mut device, &descriptor(2, 2)).unwrap();
    let mut wrong = a;
    wrong.texture = GpuTexture { id: 999 };
    assert!(!cache.release(&wrong));
    wrong = a;
    wrong.slot = 5;
    assert!(!cache.release(&wrong));
    assert!(cache.entry(0).unwrap().in_use);
    assert!(cache.release(&a));
    assert!(!cache.release(&a));
}

#[test]
fn refused_texture_leaves_the_cache_as_it_was() {
    let mut device = TestDevice::new();
    let mut cache = TextureCache::new(3);
    for error in [DeviceError::OutOfMemory, DeviceError::InvalidDescriptor] {
        device.refuse = Some(error);
        assert_eq!(cache.acquire(&mut device, &descriptor(2, 2)), Err(error));
        assert_eq!(cache.entry_count(), 0);
        assert_eq!(cache.slot_count(), 0);
    }
}

#[test]
fn refusing_device_is_not_asked_on_a_hit() {
    let mut device = TestDevice::new();
    let mut cache = TextureCache::new(3);
    let a = cache.acquire(&mut device, &descriptor(2, 2)).unwrap();
    cache.release(&a);
    device.refuse = Some(DeviceError::OutOfMemory);
    assert_eq!(cache.acquire(&mut device, &descriptor(2, 2)), Ok(a));
}

#[test]
fn released_texture_survives_threshold_frames() {
    let mut device = TestDevice::new();
    let mut cache = TextureCache::new(3);
    let a = cache.acquire(&mut device, &descriptor(2, 2)).unwrap();
    cache.release(&a);
    for _ in 0..3 {
        assert!(cache.end_frame().is_empty());
        assert_eq!(cache.entry_count(), 1);
    }
    assert_eq!(cache.frame(), 3);
    assert_eq!(cache.acquire(&mut device, &descriptor(2, 2)), Ok(a));
    assert_eq!(device.textures.len(), 1);
}

#[test]
fn released_texture_is_destroyed_by_frame_end_threshold_plus_one() {
    let mut device = TestDevice::new();
    let mut cache = TextureCache::new(3);
    let a = cache.acquire(&mut device, &descriptor(2, 2)).unwrap();
    cache.release(&a);
    for _ in 0..3 {
        assert!(cache.end_frame().is_empty());
    }
    assert_eq!(cache.end_frame(), vec![a.texture]);
    assert_eq!(cache.entry_count(), 0);
    assert_eq!(cache.entry(a.slot), None);
    assert_eq!(cache.frame(), 4);
    let b = cache.acquire(&mut device, &descriptor(2, 2)).unwrap();
    assert_ne!(b.texture, a.texture);
    assert_eq!(device.textures.len(), 2);
}

#[test]
fn grace_window_starts_at_the_release() {
    let mut device = TestDevice::new();
    let mut cache = TextureCache::new(3);
    let a = cache.acquire(&mut device, &descriptor(2, 2)).unwrap();
    for _ in 0..10 {
        assert!(cache.end_frame().is_empty());
    }
    cache.release(&a);
    assert_eq!(cache.entry(a.slot).unwrap().last_used, 10);
    for _ in 0..3 {
        assert!(cache.end_frame().is_empty());
    }
    assert_eq!(cache.end_frame(), vec![a.texture]);
}

#[test]
fn texture_in_use_is_never_evicted() {
    let mut device = TestDevice::new();
    let mut cache = TextureCache::new(0);
    let a = cache.acquire(&mut device, &descriptor(2, 2)).unwrap();
    for _ in 0..20 {
        assert!(cache.end_frame().is_empty());
    }
    assert_eq!(cache.entry(a.slot).unwrap().texture, a.texture);
}

#[test]
fn threshold_zero_evicts_at_the_next_frame_end() {
    let mut device = TestDevice::new();
    let mut cache = TextureCache::new(0);
    let a = cache.acquire(&mut device, &descriptor(2, 2)).unwrap();
    cache.release(&a);
    assert_eq!(cache.acquire(&mut device, &descriptor(2, 2)), Ok(a));
    cache.release(&a);
    assert_eq!(cache.end_frame(), vec![a.texture]);
}

#[test]
fn hit_refreshes_the_last_used_frame() {
    let mut device = TestDevice::new();
    let mut cache = TextureCache::new(3);
    let a = cache.acquire(&mut device, &descriptor(2, 2)).unwrap();
    cache.release(&a);
    cache.end_frame();
    cache.end_frame();
    assert_eq!(cache.entry(a.slot).unwrap().last_used, 0);
    cache.acquire(&mut device, &descriptor(2, 2)).unwrap();
    assert_eq!(cache.entry(a.slot).unwrap().last_used, 2);
}

#[test]
fn evicted_textures_come_in_slot_order() {
    let mut device = TestDevice::new();
    let mut cache = TextureCache::new(0);
    let a = cache.acquire(&mut device, &descriptor(1, 1)).unwrap();
    let b = cache.acquire(&mut device, &descriptor(2, 2)).unwrap();
    let c = cache.acquire(&mut device, &descriptor(3, 3)).unwrap();
    cache.release(&c);
    cache.release(&a);
    assert_eq!(cache.end_frame(), vec![a.texture, c.texture]);
    assert_eq!(cache.entry_count(), 1);
    assert_eq!(cache.entry(b.slot).unwrap().texture, b.texture);
}

// ---- the render world ----

#[test]
fn fallback_descriptor_is_one_srgb_pixel() {
    let d = FallbackImage::descriptor();
    assert_eq!(d.extent, Extent { width: 1, height: 1 });
    assert_eq!(d.format, TextureFormat::Rgba8UnormSrgb);
    assert_eq!(d.usage, IMAGE_USAGE);
    assert_eq!((d.mip_count, d.sample_count), (1, 1));
}

#[test]
fn fallback_is_created_outside_the_pool() {
    let mut device = TestDevice::new();
    let sampler = GpuSampler { id: 77 };
    let fallback = FallbackImage::create(&mut device, sampler).unwrap();
    assert_eq!(device.textures, vec![(fallback.gpu.texture.id, FallbackImage::descriptor())]);
    assert_eq!(fallback.gpu.sampler, sampler);
    assert_eq!(fallback.gpu.extent, Extent { width: 1, height: 1 });
    assert_eq!(device.views, vec![(fallback.gpu.texture.id, ViewDescriptor { base_mip: 0, mip_count: 1 })]);
    device.refuse = Some(DeviceError::InvalidDescriptor);
    assert_eq!(FallbackImage::create(&mut device, sampler), Err(DeviceError::InvalidDescriptor));
}

#[test]
fn whole_view_shows_every_level() {
    let d = TextureDescriptor { mip_count: 5, ..descriptor(8, 8) };
    assert_eq!(ViewDescriptor::whole(&d), ViewDescriptor { base_mip: 0, mip_count: 5 });
}

#[test]
fn new_world_has_fallback_and_default_sampler() {
    let mut device = TestDevice::new();
    let world = world(&mut device);
    assert_eq!(device.samplers, vec![linear()]);
    assert_eq!(device.textures.len(), 1);
    assert_eq!(device.textures[0].1.extent, Extent { width: 1, height: 1 });
    assert_eq!(device.uploads, vec![(device.textures[0].0, vec![255u8, 255, 255, 255])]);
    let fallback = world.fallback();
    assert_eq!(fallback.texture.id, device.textures[0].0);
    assert_eq!(fallback.sampler, world.default_sampler());
    assert_eq!(fallback.extent, Extent { width: 1, height: 1 });
    assert_eq!(world.cache().entry_count(), 0);
    assert_eq!(world.queue_len(), 0);
}

#[test]
fn world_without_fallback_texture_is_an_error() {
    for error in [DeviceError::OutOfMemory, DeviceError::InvalidDescriptor] {
        let mut device = TestDevice::new();
        device.refuse = Some(error);
        assert_eq!(RenderWorld::new(&mut device, &linear(), 3).err(), Some(error));
    }
}

#[test]
fn unknown_handle_resolves_to_the_fallback() {
    let mut device = TestDevice::new();
    let world = world(&mut device);
    let handle = Handle { index: 12, generation: 3 };
    assert_eq!(world.gpu_image(handle), None);
    assert_eq!(world.resolve(handle), world.fallback());
}

#[test]
fn extract_copies_each_changed_image_once() {
    let mut device = TestDevice::new();
    let mut world = world(&mut device);
    let mut app = AssetTable::new();
    let handle = app.add(rgba(2, 2, 7));
    extract(&mut app, &mut world);
    assert_eq!(world.queue_len(), 1);
    assert_eq!(app.get(handle).unwrap().data(), &vec![7u8; 16]);
    extract(&mut app, &mut world);
    assert_eq!(world.queue_len(), 1);
}

#[test]
fn prepare_uploads_and_installs() {
    let mut device = TestDevice::new();
    let mut world = world(&mut device);
    let mut app = AssetTable::new();
    let handle = app.add(rgba(2, 2, 7));
    extract(&mut app, &mut world);
    assert_eq!(world.resolve(handle), world.fallback());
    let report = world.prepare(&mut device);
    assert!(report.is_empty());
    assert_eq!(world.queue_len(), 0);
    let gpu = world.gpu_image(handle).unwrap();
    assert_eq!(world.resolve(handle), gpu);
    assert_ne!(gpu.texture, world.fallback().texture);
    assert_eq!(gpu.extent, Extent { width: 2, height: 2 });
    assert_eq!(gpu.sampler, world.default_sampler());
    assert_eq!(device.uploads.last(), Some(&(gpu.texture.id, vec![7u8; 16])));
    assert_eq!(device.samplers.len(), 1);
    let entry = world.cache().entry(0).unwrap();
    assert_eq!(entry.texture, gpu.texture);
    assert_eq!(entry.view, gpu.view);
    assert!(entry.in_use);
    assert_eq!(entry.descriptor, descriptor(2, 2));
}

#[test]
fn image_with_its_own_sampler_gets_one() {
    let mut device = TestDevice::new();
    let mut world = world(&mut device);
    let own = SamplerDescriptor { filter: FilterMode::Nearest, address_mode: AddressMode::Repeat };
    let image = rgba(1, 1, 0).with_sampler(own);
    let gpu = world.prepare_asset(&mut device, Handle { index: 0, generation: 0 }, &image).unwrap();
    assert_ne!(gpu.sampler, world.default_sampler());
    assert_eq!(device.samplers, vec![linear(), own]);
}

#[test]
fn prepare_twice_allocates_nothing_more() {
    let mut device = TestDevice::new();
    let mut world = world(&mut device);
    let mut app = AssetTable::new();
    let handle = app.add(rgba(2, 2, 7));
    extract(&mut app, &mut world);
    world.prepare(&mut device);
    let gpu = world.resolve(handle);
    let before = device.clone();
    let report = world.prepare(&mut device);
    assert!(report.is_empty());
    assert_eq!(device, before);
    assert_eq!(world.resolve(handle), gpu);
    assert_eq!(world.cache().entry_count(), 1);
    extract(&mut app, &mut world);
    world.prepare(&mut device);
    assert_eq!(device, before);
}

#[test]
fn failed_asset_resolves_to_the_fallback_and_creates_nothing() {
    let mut device = TestDevice::new();
    let mut world = world(&mut device);
    let mut app = AssetTable::new();
    let handle = app.begin_load();
    app.finish_load(handle, Err(DecodeError::CorruptData));
    assert_eq!(app.load_state(handle), LoadState::Failed);
    let before = device.clone();
    extract(&mut app, &mut world);
    let report = world.prepare(&mut device);
    assert!(report.is_empty());
    assert_eq!(device, before);
    assert_eq!(world.resolve(handle), world.fallback());
    assert_eq!(world.cache().entry_count(), 0);
}

#[test]
fn loading_asset_resolves_to_the_fallback() {
    let mut device = TestDevice::new();
    let mut world = world(&mut device);
    let mut app = AssetTable::new();
    let handle = app.begin_load();
    extract(&mut app, &mut world);
    world.prepare(&mut device);
    assert_eq!(world.resolve(handle), world.fallback());
    app.finish_load(handle, Ok(rgba(1, 1, 3)));
    extract(&mut app, &mut world);
    world.prepare(&mut device);
    assert_ne!(world.resolve(handle), world.fallback());
}

#[test]
fn refused_texture_is_reported_and_holds_up_no_other_asset() {
    let mut device = TestDevice::new();
    let mut world = world(&mut device);
    let mut app = AssetTable::new();
    let small = app.add(rgba(1, 1, 1));
    let big = app.add(rgba(8, 1, 2));
    let other = app.add(rgba(2, 1, 3));
    device.refuse_bigger_than = Some(4);
    extract(&mut app, &mut world);
    let report = world.prepare(&mut device);
    assert_eq!(report, vec![PrepareFailure { handle: big, error: DeviceError::OutOfMemory }]);
    assert_eq!(world.resolve(big), world.fallback());
    assert_eq!(world.gpu_image(big), None);
    assert_eq!(world.gpu_image(small).unwrap().extent, Extent { width: 1, height: 1 });
    assert_eq!(world.gpu_image(other).unwrap().extent, Extent { width: 2, height: 1 });
    assert_eq!(world.cache().entry_count(), 2);
    // the failure is not retried by itself
    device.refuse_bigger_than = None;
    extract(&mut app, &mut world);
    assert!(world.prepare(&mut device).is_empty());
    assert_eq!(world.resolve(big), world.fallback());
}

#[test]
fn each_device_error_is_reported() {
    for error in [DeviceError::OutOfMemory, DeviceError::InvalidDescriptor] {
        let mut device = TestDevice::new();
        let mut world = world(&mut device);
        device.refuse = Some(error);
        let handle = Handle { index: 0, generation: 0 };
        assert_eq!(world.prepare_asset(&mut device, handle, &rgba(1, 1, 1)), Err(error));
        assert_eq!(world.resolve(handle), world.fallback());
    }
}

#[test]
fn removed_asset_is_unloaded_and_its_texture_is_free() {
    let mut device = TestDevice::new();
    let mut world = world(&mut device);
    let mut app = AssetTable::new();
    let handle = app.add(rgba(2, 2, 7));
    extract(&mut app, &mut world);
    world.prepare(&mut device);
    assert!(world.gpu_image(handle).is_some());
    app.remove(handle);
    extract(&mut app, &mut world);
    world.prepare(&mut device);
    assert_eq!(world.gpu_image(handle), None);
    assert_eq!(world.resolve(handle), world.fallback());
    let entry = world.cache().entry(0).unwrap();
    assert!(!entry.in_use);
    assert_eq!(world.cache().entry_count(), 1);
}

#[test]
fn unload_reports_whether_something_was_resident() {
    let mut device = TestDevice::new();
    let mut world = world(&mut device);
    let handle = Handle { index: 2, generation: 0 };
    assert!(!world.unload(handle));
    world.prepare_asset(&mut device, handle, &rgba(1, 1, 1)).unwrap();
    assert!(!world.unload(Handle { index: 2, generation: 1 }));
    assert!(world.gpu_image(handle).is_some());
    assert!(world.unload(handle));
    assert!(!world.unload(handle));
    assert_eq!(world.resolve(handle), world.fallback());
}

#[test]
fn changed_image_with_the_same_descriptor_reuses_its_texture() {
    let mut device = TestDevice::new();
    let mut world = world(&mut device);
    let mut app = AssetTable::new();
    let handle = app.add(rgba(2, 2, 7));
    extract(&mut app, &mut world);
    world.prepare(&mut device);
    let first = world.gpu_image(handle).unwrap();
    let textures = device.textures.len();
    app.set(handle, rgba(2, 2, 9));
    extract(&mut app, &mut world);
    world.prepare(&mut device);
    let second = world.gpu_image(handle).unwrap();
    assert_eq!(second.texture, first.texture);
    assert_eq!(device.textures.len(), textures);
    assert_eq!(device.uploads.last(), Some(&(first.texture.id, vec![9u8; 16])));
    assert_eq!(world.cache().entry_count(), 1);
}

#[test]
fn resized_image_gets_a_new_texture_and_frees_the_old() {
    let mut device = TestDevice::new();
    let mut world = world(&mut device);
    let mut app = AssetTable::new();
    let handle = app.add(rgba(2, 2, 7));
    extract(&mut app, &mut world);
    world.prepare(&mut device);
    let first = world.gpu_image(handle).unwrap();
    app.set(handle, rgba(4, 4, 7));
    extract(&mut app, &mut world);
    world.prepare(&mut device);
    let second = world.gpu_image(handle).unwrap();
    assert_ne!(second.texture, first.texture);
    assert_eq!(second.extent, Extent { width: 4, height: 4 });
    assert_eq!(world.cache().entry_count(), 2);
    assert!(!world.cache().entry(0).unwrap().in_use);
    // resized back within the grace window: the first texture is found again
    app.set(handle, rgba(2, 2, 7));
    extract(&mut app, &mut world);
    world.prepare(&mut device);
    assert_eq!(world.gpu_image(handle).unwrap().texture, first.texture);
}

#[test]
fn stale_handle_gets_the_fallback_after_its_slot_is_reused() {
    let mut device = TestDevice::new();
    let mut world = world(&mut device);
    let mut app = AssetTable::new();
    let old = app.add(rgba(2, 2, 1));
    extract(&mut app, &mut world);
    world.prepare(&mut device);
    app.remove(old);
    let new = app.add(rgba(2, 2, 2));
    assert_eq!(new.index, old.index);
    extract(&mut app, &mut world);
    world.prepare(&mut device);
    assert_eq!(world.resolve(old), world.fallback());
    assert_ne!(world.resolve(new), world.fallback());
}

#[test]
fn cleanup_never_drops_a_prepared_texture() {
    let mut device = TestDevice::new();
    let mut world = world(&mut device);
    let mut app = AssetTable::new();
    let handle = app.add(rgba(2, 2, 7));
    extract(&mut app, &mut world);
    world.prepare(&mut device);
    let gpu = world.resolve(handle);
    for _ in 0..10 {
        assert!(world.cleanup().is_empty());
    }
    assert_eq!(world.resolve(handle), gpu);
    assert_eq!(world.cache().frame(), 10);
}

#[test]
fn cleanup_drops_the_texture_of_a_removed_asset_after_the_grace_window() {
    let mut device = TestDevice::new();
    let mut world = world(&mut device);
    let mut app = AssetTable::new();
    let handle = app.add(rgba(2, 2, 7));
    let report = run_frame(&mut app, &mut world, &mut device);
    assert!(report.failures.is_empty() && report.destroyed.is_empty());
    let gpu = world.resolve(handle);
    app.remove(handle);
    // the frame that unloads the asset ends, and two more: three frame ends keep the texture
    for _ in 0..3 {
        let report = run_frame(&mut app, &mut world, &mut device);
        assert!(report.destroyed.is_empty());
        assert_eq!(world.cache().entry_count(), 1);
    }
    // the fourth frame end after the release destroys it
    let report = run_frame(&mut app, &mut world, &mut device);
    assert_eq!(report.destroyed, vec![gpu.texture]);
    assert_eq!(world.cache().entry_count(), 0);
    assert_eq!(world.fallback().texture.id, device.textures[0].0);
}

#[test]
fn run_frame_extracts_prepares_and_cleans_up() {
    let mut device = TestDevice::new();
    let mut world = world(&mut device);
    let mut app = AssetTable::new();
    let ok = app.add(rgba(1, 1, 1));
    let big = app.add(rgba(8, 1, 1));
    device.refuse_bigger_than = Some(4);
    let report = run_frame(&mut app, &mut world, &mut device);
    assert_eq!(report.failures, vec![PrepareFailure { handle: big, error: DeviceError::OutOfMemory }]);
    assert!(report.destroyed.is_empty());
    assert!(world.gpu_image(ok).is_some());
    assert_eq!(world.queue_len(), 0);
    assert_eq!(world.cache().frame(), 1);
    assert!(app.take_changes().is_empty());
}

// ---- end to end ----

#[test]
fn two_by_two_image_from_bytes_to_texture_and_reuse() {
    let mut device = TestDevice::new();
    let mut app = AssetTable::new();
    let mut world = ImagePlugin.build(&mut app, &ImageSettings::default(), &mut device).unwrap();
    let created = device.textures.len();

    // bytes -> image
    let file: Vec<u8> = (0u8..16).collect();
    let codec = |_, bytes: &[u8]| {
        Some(DecodedPixels { width: 2, height: 2, layout: PixelLayout::Rgba8, data: bytes.to_vec() })
    };
    let handle = app.begin_load();
    let image = decode(&file, "png", true, &CompiledFormats::all(), codec);
    assert_eq!(image.as_ref().unwrap().extent(), Extent { width: 2, height: 2 });
    assert_eq!(image.as_ref().unwrap().byte_len(), 16);
    assert!(app.finish_load(handle, image));

    // extract copies it once
    extract(&mut app, &mut world);
    assert_eq!(world.queue_len(), 1);
    extract(&mut app, &mut world);
    assert_eq!(world.queue_len(), 1);

    // prepare creates exactly one cache entry with descriptor (2, 2, RGBA8, 1, 1)
    assert!(world.prepare(&mut device).is_empty());
    assert_eq!(device.textures.len(), created + 1);
    assert_eq!(world.cache().entry_count(), 1);
    let entry = world.cache().entry(0).unwrap();
    assert_eq!(entry.descriptor.extent, Extent { width: 2, height: 2 });
    assert_eq!(entry.descriptor.format, TextureFormat::Rgba8UnormSrgb);
    assert_eq!(entry.descriptor.mip_count, 1);
    assert_eq!(entry.descriptor.sample_count, 1);
    let first = world.gpu_image(handle).unwrap();
    assert_eq!(entry.texture, first.texture);
    world.cleanup();

    // a second identical asset takes the place of the first: same entry, no allocation
    app.remove(handle);
    let second = app.begin_load();
    let image = decode(&file, "png", true, &CompiledFormats::all(), codec);
    assert!(app.finish_load(second, image));
    extract(&mut app, &mut world);
    assert!(world.prepare(&mut device).is_empty());
    assert_eq!(device.textures.len(), created + 1);
    assert_eq!(world.cache().entry_count(), 1);
    assert_eq!(world.gpu_image(second).unwrap().texture, first.texture);
    assert_eq!(world.resolve(handle), world.fallback());
}

// ---- setting up ----

#[test]
fn default_settings_are_linear_with_threshold_three() {
    let settings = ImageSettings::default();
    assert_eq!(settings, ImageSettings::default_linear());
    assert_eq!(settings.default_sampler, linear());
    assert_eq!(settings.eviction_threshold, 3);
    let nearest = ImageSettings::default_nearest();
    assert_eq!(nearest.default_sampler.filter, FilterMode::Nearest);
    assert_eq!(nearest.default_sampler.address_mode, AddressMode::ClampToEdge);
    assert_eq!(nearest.eviction_threshold, 3);
}

#[test]
fn build_stores_the_default_image_untracked() {
    let mut device = TestDevice::new();
    let mut app = AssetTable::new();
    let world = ImagePlugin.build(&mut app, &ImageSettings::default(), &mut device).unwrap();
    assert_eq!(default_handle(), Handle { index: 0, generation: 0 });
    let image = app.get(default_handle()).unwrap();
    assert_eq!(image.data(), &vec![255u8; 4]);
    assert_eq!(image.extent(), Extent { width: 1, height: 1 });
    assert!(app.take_changes().is_empty());
    assert_eq!(world.resolve(default_handle()), world.fallback());
}

#[test]
fn build_uses_the_settings() {
    let mut device = TestDevice::new();
    let mut app = AssetTable::new();
    let settings = ImageSettings {
        default_sampler: SamplerDescriptor { filter: FilterMode::Nearest, address_mode: AddressMode::Repeat },
        eviction_threshold: 7,
    };
    let world = ImagePlugin.build(&mut app, &settings, &mut device).unwrap();
    assert_eq!(device.samplers, vec![settings.default_sampler]);
    assert_eq!(world.cache().threshold(), 7);
    assert_eq!(world.cache().frame(), 0);
    assert_eq!(world.cache().entry_count(), 0);
}

#[test]
fn build_without_fallback_texture_still_stores_the_default_image() {
    let mut device = TestDevice::new();
    device.refuse = Some(DeviceError::OutOfMemory);
    let mut app = AssetTable::new();
    let r = ImagePlugin.build(&mut app, &ImageSettings::default(), &mut device);
    assert_eq!(r.err(), Some(DeviceError::OutOfMemory));
    assert_eq!(app.load_state(default_handle()), LoadState::Loaded);
}

#[test]
fn build_keeps_the_assets_that_were_added_before() {
    let mut device = TestDevice::new();
    let mut app = AssetTable::new();
    let first = app.add(rgba(1, 1, 9));
    app.remove(first);
    let again = app.add(rgba(1, 1, 8));
    assert_eq!(again, Handle { index: 1, generation: 1 });
    ImagePlugin.build(&mut app, &ImageSettings::default(), &mut device).unwrap();
    assert_eq!(app.get(default_handle()).unwrap().data(), &vec![255u8; 4]);
    assert_eq!(app.get(again).unwrap().data(), &vec![8u8; 4]);
    assert!(app.get(first).is_none());
}

#[test]
fn headless_build_stores_the_default_image_only() {
    let mut app = AssetTable::new();
    ImagePlugin.build_headless(&mut app);
    let image = app.get(default_handle()).unwrap();
    assert_eq!(image.data(), &vec![255u8; 4]);
    assert_eq!(image.extent(), Extent { width: 1, height: 1 });
    assert!(app.take_changes().is_empty());
    assert_eq!(app.add(rgba(1, 1, 1)), Handle { index: 1, generation: 0 });
}

#[test]
fn build_asks_for_the_sampler_once_and_uses_the_answer() {
    let mut device = TestDevice::new();
    let mut app = AssetTable::new();
    let settings = ImageSettings {
        default_sampler: SamplerDescriptor { filter: FilterMode::Nearest, address_mode: AddressMode::MirrorRepeat },
        eviction_threshold: 3,
    };
    let world = ImagePlugin.build(&mut app, &settings, &mut device).unwrap();
    assert_eq!(device.samplers, vec![settings.default_sampler]);
    assert_eq!(world.default_sampler(), GpuSampler { id: 1 });
    assert_eq!(world.fallback().sampler, GpuSampler { id: 1 });
    assert_eq!(device.textures, vec![(2, FallbackImage::descriptor())]);
    assert_eq!(world.fallback().texture, GpuTexture { id: 2 });
}

#[test]
fn after_eviction_the_device_is_asked_again() {
    let mut device = TestDevice::new();
    let mut cache = TextureCache::new(3);
    let a = cache.acquire(&mut device, &descriptor(2, 2)).unwrap();
    cache.release(&a);
    for _ in 0..4 {
        cache.end_frame();
    }
    assert_eq!(device.textures.len(), 1);
    let b = cache.acquire(&mut device, &descriptor(2, 2)).unwrap();
    assert_eq!(device.textures.len(), 2);
    assert_eq!(device.textures[1], (b.texture.id, descriptor(2, 2)));
}

#[test]
fn one_image_on_an_empty_pool_asks_for_one_texture() {
    let mut device = TestDevice::new();
    let mut world = world(&mut device);
    let before = device.textures.len();
    let mut app = AssetTable::new();
    let handle = app.add(rgba(2, 2, 0));
    extract(&mut app, &mut world);
    assert!(world.prepare(&mut device).is_empty());
    assert_eq!(device.textures.len(), before + 1);
    assert_eq!(device.textures[before].1, descriptor(2, 2));
    assert_eq!(world.cache().entry_count(), 1);
    assert_eq!(world.cache().entry(0).unwrap().descriptor, descriptor(2, 2));
    assert!(world.gpu_image(handle).is_some());
}

#[test]
fn image_with_a_free_match_is_prepared_though_the_device_refuses() {
    let mut device = TestDevice::new();
    let mut world = world(&mut device);
    let mut app = AssetTable::new();
    let first = app.add(rgba(2, 2, 1));
    extract(&mut app, &mut world);
    world.prepare(&mut device);
    app.remove(first);
    let second = app.add(rgba(2, 2, 2));
    device.refuse = Some(DeviceError::OutOfMemory);
    extract(&mut app, &mut world);
    assert!(world.prepare(&mut device).is_empty());
    assert!(world.gpu_image(second).is_some());
}

//! The render world and the three stages that run on it once per frame, in this
//! order: extract, prepare, cleanup.

use vstd::prelude::*;
use crate::assets::{change_views, AssetTable, AssetsView, Change, ChangeView, Handle};
use crate::device::{
    answered, at, whole_view, DeviceCall, DeviceError, GpuDevice, GpuImage, GpuSampler, GpuTexture,
    GpuView,
};
use crate::fallback::{fallback_descriptor, FallbackImage};
use crate::image::{
    white_pixel, Extent, Image, ImageView, SamplerDescriptor, TextureDescriptor,
};
use crate::texture_cache::{CacheState, CachedTexture, TextureCache};

verus! {

/// The GPU resources of one prepared image, with the generation of the handle
/// they belong to and the pooled texture they occupy.
#[derive(Clone, Copy, Debug, PartialEq, Eq, Structural)]
pub struct Resident {
    pub generation: u64,
    pub descriptor: TextureDescriptor,
    pub cached: CachedTexture,
    pub gpu: GpuImage,
}

/// The report of an image that could not be prepared.
#[derive(Clone, Copy, Debug, PartialEq, Eq, Structural)]
pub struct PrepareFailure {
    pub handle: Handle,
    pub error: DeviceError,
}

/// The render world as a value.
pub struct RenderView {
    pub cache: CacheState,
    pub fallback: GpuImage,
    pub default_sampler: GpuSampler,
    /// The prepared images, by the slot index of their handle.
    pub resident: Seq<Option<Resident>>,
    /// The changes that were extracted and not yet prepared, oldest first.
    pub queue: Seq<ChangeView>,
}

/// Whether applying `change` can alter what `handle` resolves to: a `Store`
/// replaces whatever is resident for its slot, a `Remove` only its own handle.
pub open spec fn affects(change: ChangeView, handle: Handle) -> bool {
    match change {
        ChangeView::Store { handle: stored, .. } => stored.index == handle.index,
        ChangeView::Remove { handle: removed } => removed == handle,
    }
}

/// Whether `change` stores an image under exactly `handle`.
pub open spec fn stores(change: ChangeView, handle: Handle) -> bool {
    change matches ChangeView::Store { handle: stored, .. } && stored == handle
}

/// None of the first `n` changes affects `handle`.
pub open spec fn untouched(queue: Seq<ChangeView>, handle: Handle, n: int) -> bool {
    forall|p: int| 0 <= p < n ==> !affects(#[trigger] queue[p], handle)
}

/// No change strictly between positions `p` and `n` affects `handle`.
pub open spec fn last_word(queue: Seq<ChangeView>, p: int, handle: Handle, n: int) -> bool {
    forall|q: int| p < q < n ==> !affects(#[trigger] queue[q], handle)
}

/// No change strictly between positions `p` and `n` stores an image under `handle`.
pub open spec fn not_stored_after(queue: Seq<ChangeView>, p: int, handle: Handle, n: int) -> bool {
    forall|q: int| p < q < n ==> !stores(#[trigger] queue[q], handle)
}

/// One of the first `n` changes stores an image under `handle`.
pub open spec fn stored_before(queue: Seq<ChangeView>, handle: Handle, n: int) -> bool {
    exists|p: int| 0 <= p < n && stores(#[trigger] queue[p], handle)
}

/// The failures among the first `n` steps, in order: one for each `Store` whose
/// result is an error, with the handle of the store and that error.
pub open spec fn failures(
    queue: Seq<ChangeView>,
    failed: Seq<Option<Result<GpuImage, DeviceError>>>,
    n: int,
) -> Seq<PrepareFailure>
    decreases n,
{
    if n <= 0 {
        Seq::empty()
    } else {
        let rest = failures(queue, failed, n - 1);
        match (queue[n - 1], failed[n - 1]) {
            (ChangeView::Store { handle, .. }, Some(Err(error))) => rest.push(
                PrepareFailure { handle, error },
            ),
            _ => rest,
        }
    }
}

/// Step `p` of a chain of worlds is what `stepped` says, for some calls to the device.
pub open spec fn moved(
    worlds: Seq<RenderView>,
    queue: Seq<ChangeView>,
    failed: Seq<Option<Result<GpuImage, DeviceError>>>,
    p: int,
) -> bool {
    exists|calls: Seq<DeviceCall>| #[trigger]
        worlds[p].stepped(queue[p], calls, failed[p], worlds[p + 1])
}

/// The report names `handle`.
pub open spec fn reported(report: Seq<PrepareFailure>, handle: Handle) -> bool {
    exists|k: int| 0 <= k < report.len() && (#[trigger] report[k]).handle == handle
}

impl RenderView {
    /// What is resident for slot index `index`, if anything.
    pub open spec fn resident_at(self, index: int) -> Option<Resident> {
        if 0 <= index < self.resident.len() {
            self.resident[index]
        } else {
            None
        }
    }

    /// The prepared GPU image of `handle`, if it has one. A handle of another
    /// generation than the resident one has none.
    pub open spec fn gpu_image(self, handle: Handle) -> Option<GpuImage> {
        match self.resident_at(handle.index as int) {
            Some(r) if r.generation == handle.generation => Some(r.gpu),
            _ => None,
        }
    }

    /// What rendering code gets for `handle`: its prepared image, or the fallback.
    pub open spec fn resolve(self, handle: Handle) -> GpuImage {
        match self.gpu_image(handle) {
            Some(gpu) => gpu,
            None => self.fallback,
        }
    }

    /// The pool holds the resident's texture, in use, under the resident's descriptor.
    pub open spec fn backed(self, r: Resident) -> bool {
        &&& self.cache.holds(r.cached)
        &&& self.cache.slots[r.cached.slot as int]->0.descriptor == r.descriptor
        &&& r.gpu.texture == r.cached.texture
        &&& r.gpu.view == r.cached.view
    }

    /// Every prepared image occupies a pooled texture that is in use, and no two
    /// prepared images occupy the same one.
    pub open spec fn wf(self) -> bool {
        &&& self.cache.valid()
        &&& forall|i: int|
            0 <= i < self.resident.len() && (#[trigger] self.resident[i]) is Some ==> self.backed(
                self.resident[i]->0,
            )
        &&& forall|i: int, j: int|
            0 <= i < j < self.resident.len() && (#[trigger] self.resident[i]) is Some && (
            #[trigger] self.resident[j]) is Some ==> self.resident[i]->0.cached.slot
                != self.resident[j]->0.cached.slot
    }

    /// `handle` resolves to GPU resources made for `image`: a pooled texture of the
    /// image's descriptor, the image's size, and the default sampler unless the
    /// image asks for its own.
    pub open spec fn installed(self, handle: Handle, image: ImageView) -> bool {
        &&& self.resident_at(handle.index as int) matches Some(r)
        &&& r.generation == handle.generation
        &&& r.descriptor == image.descriptor
        &&& r.gpu.extent == image.descriptor.extent
        &&& image.sampler is None ==> r.gpu.sampler == self.default_sampler
    }

    /// The render world after whatever is resident for slot index `index` gave
    /// its texture back to the pool and left.
    pub open spec fn vacated(self, index: int) -> RenderView {
        match self.resident_at(index) {
            Some(r) => RenderView {
                cache: self.cache.released(r.cached),
                resident: self.resident.update(index, None),
                ..self
            },
            None => self,
        }
    }

    /// What `prepare_asset` does, given the calls it made to the device and
    /// their answers. Whatever was resident for the handle's slot leaves first.
    /// Then a texture of the image's descriptor is acquired from the pool, with
    /// the first `asks` calls. If that fails, there are no more calls, the error
    /// is the result and nothing is resident for the slot. Otherwise the image's
    /// bytes are uploaded into the acquired texture; if the image asks for its
    /// own sampler, the device is asked for it, else the default sampler is
    /// used; and texture, view, sampler and the image's size are the result and
    /// are resident under the handle. No other slot changes.
    pub open spec fn stored(
        self,
        handle: Handle,
        image: ImageView,
        calls: Seq<DeviceCall>,
        r: Result<GpuImage, DeviceError>,
        after: RenderView,
    ) -> bool {
        let start = self.vacated(handle.index as int);
        exists|asks: int, got: Result<CachedTexture, DeviceError>|
            {
                &&& 0 <= asks <= calls.len()
                &&& #[trigger] start.cache.acquired(
                    image.descriptor,
                    calls.take(asks),
                    got,
                    after.cache,
                )
                &&& after.same_frame(self)
                &&& after.queue == self.queue
                &&& forall|x: int|
                    x != handle.index ==> after.resident_at(x) == start.resident_at(x)
                &&& match got {
                    Err(e) => {
                        &&& asks == calls.len()
                        &&& r == Err::<GpuImage, DeviceError>(e)
                        &&& after.resident_at(handle.index as int) is None
                    },
                    Ok(cached) => {
                        &&& calls.len() > asks
                        &&& calls[asks] == (DeviceCall::Upload {
                            into: cached.texture,
                            bytes: image.data,
                        })
                        &&& r matches Ok(gpu)
                        &&& gpu.texture == cached.texture
                        &&& gpu.view == cached.view
                        &&& gpu.extent == image.descriptor.extent
                        &&& match image.sampler {
                            None => calls.len() == asks + 1 && gpu.sampler
                                == self.default_sampler,
                            Some(own) => calls.len() == asks + 2 && calls[asks + 1] == (
                            DeviceCall::CreateSampler { sampling: own, sampler: gpu.sampler }),
                        }
                        &&& after.resident_at(handle.index as int) == Some(
                            Resident {
                                generation: handle.generation,
                                descriptor: image.descriptor,
                                cached,
                                gpu,
                            },
                        )
                    },
                }
            }
    }

    /// What applying one queued change does, given the calls made to the
    /// device for it: a `Remove` makes no call, has no result, and unloads its
    /// handle if that has something resident; a `Store` does what `stored` says
    /// and has the result of preparing its image.
    pub open spec fn stepped(
        self,
        change: ChangeView,
        calls: Seq<DeviceCall>,
        result: Option<Result<GpuImage, DeviceError>>,
        after: RenderView,
    ) -> bool {
        &&& after.wf()
        &&& match change {
            ChangeView::Remove { handle } => {
                &&& calls.len() == 0
                &&& result is None
                &&& after == if self.gpu_image(handle) is Some {
                    self.vacated(handle.index as int)
                } else {
                    self
                }
            },
            ChangeView::Store { handle, image } => {
                &&& result matches Some(r)
                &&& self.stored(handle, image, calls, r, after)
            },
        }
    }

    /// How `prepare` ran, step by step. `worlds` holds one world before each
    /// queued change and one at the end, starting with `self` without its
    /// queue and ending with `after`. `calls` holds every call made to the
    /// device, in order, and `cuts` says where the calls of each step begin and
    /// end. Each step is what `stepped` says of its change, its calls and its
    /// failure, and the report holds the failures of the steps in their order.
    pub open spec fn ran(
        self,
        worlds: Seq<RenderView>,
        failed: Seq<Option<Result<GpuImage, DeviceError>>>,
        calls: Seq<DeviceCall>,
        cuts: Seq<int>,
        report: Seq<PrepareFailure>,
        after: RenderView,
    ) -> bool {
        let n = self.queue.len() as int;
        &&& worlds.len() == n + 1
        &&& failed.len() == n
        &&& cuts.len() == n + 1
        &&& worlds[0] == (RenderView { queue: Seq::empty(), ..self })
        &&& worlds[n] == after
        &&& cuts[0] == 0
        &&& cuts[n] == calls.len()
        &&& forall|p: int|
            0 <= p < n ==> cuts[p] <= cuts[p + 1] && (#[trigger] worlds[p]).stepped(
                self.queue[p],
                calls.subrange(cuts[p], cuts[p + 1]),
                failed[p],
                worlds[p + 1],
            )
        &&& report == failures(self.queue, failed, n)
    }

    /// The render world with `changes` added at the end of its queue.
    pub open spec fn enqueued(self, changes: Seq<ChangeView>) -> RenderView {
        RenderView { queue: self.queue + changes, ..self }
    }

    /// The render world after the frame ended in its texture pool.
    pub open spec fn cleaned(self) -> RenderView {
        RenderView { cache: self.cache.ended(), ..self }
    }

    /// Everything but the prepared images and the pool's slots is as in `before`.
    pub open spec fn same_frame(self, before: RenderView) -> bool {
        &&& self.fallback == before.fallback
        &&& self.default_sampler == before.default_sampler
        &&& self.cache.frame == before.cache.frame
        &&& self.cache.threshold == before.cache.threshold
    }

    /// What holds when the first `n` changes of `before`'s queue have been
    /// applied, in order, and `self` is the result with `report` the failures.
    pub open spec fn applied(
        self,
        before: RenderView,
        report: Seq<PrepareFailure>,
        n: int,
    ) -> bool {
        let queue = before.queue;
        &&& self.wf()
        &&& self.same_frame(before)
        // a handle that no change affects resolves as before
        &&& forall|handle: Handle| #[trigger]
            untouched(queue, handle, n) ==> self.gpu_image(handle) == before.gpu_image(handle)
        // a removed handle that is not stored again has nothing resident
        &&& forall|p: int|
            0 <= p < n && (#[trigger] queue[p]) is Remove && not_stored_after(
                queue,
                p,
                queue[p]->Remove_handle,
                n,
            ) ==> self.gpu_image(queue[p]->Remove_handle) is None
        // a stored image that no later change affects is installed, or reported
        // as failed with nothing resident
        &&& forall|p: int|
            0 <= p < n && (#[trigger] queue[p]) is Store && last_word(
                queue,
                p,
                queue[p]->Store_handle,
                n,
            ) ==> self.installed(queue[p]->Store_handle, queue[p]->Store_image) || (reported(
                report,
                queue[p]->Store_handle,
            ) && self.resident_at(queue[p]->Store_handle.index as int) is None)
        // every report is about a stored image
        &&& forall|k: int|
            0 <= k < report.len() ==> exists|p: int|
                0 <= p < n && stores(#[trigger] queue[p], (#[trigger] report[k]).handle)
        // whatever is resident was resident before or was stored
        &&& forall|handle: Handle|
            (#[trigger] self.gpu_image(handle)) is Some ==> self.gpu_image(handle)
                == before.gpu_image(handle) || stored_before(queue, handle, n)
    }

    /// What `prepare` does: it applies the whole queue, in order, and empties it.
    pub open spec fn prepared(self, before: RenderView, report: Seq<PrepareFailure>) -> bool {
        &&& self.applied(before, report, before.queue.len() as int)
        &&& self.queue.len() == 0
        &&& before.queue.len() == 0 ==> self == before && report.len() == 0
    }
}

/// The render world: the texture pool, the fallback, the default sampler, the
/// prepared images and the queue of extracted changes.
#[derive(Debug)]
pub struct RenderWorld {
    cache: TextureCache,
    fallback: FallbackImage,
    default_sampler: GpuSampler,
    resident: Vec<Option<Resident>>,
    queue: Vec<Change>,
}

impl View for RenderWorld {
    type V = RenderView;

    closed spec fn view(&self) -> RenderView {
        RenderView {
            cache: self.cache@,
            fallback: self.fallback.gpu,
            default_sampler: self.default_sampler,
            resident: self.resident@,
            queue: change_views(self.queue@),
        }
    }
}

impl RenderWorld {
    /// A render world with an empty pool that keeps released textures for
    /// `threshold` frames. The default sampler and the fallback texture are
    /// created on the device; if the device refuses the fallback texture, its
    /// error is returned.
    ///
    /// The device is asked for a sampler of `default_sampler`, then for a
    /// texture of the fallback descriptor. If it refuses the texture, nothing
    /// more is asked of it and its error is the result. If it answers with a
    /// texture, the white pixel is uploaded into it and a view of the whole
    /// texture is asked for; the new world has that texture and view with that
    /// sampler as its fallback, that sampler as its default sampler, an empty
    /// pool at frame 0, nothing prepared and nothing queued.
    pub fn new<D: GpuDevice>(
        device: &mut D,
        default_sampler: &SamplerDescriptor,
        threshold: u64,
    ) -> (r: Result<RenderWorld, DeviceError>)
        ensures
            r matches Ok(world) ==> {
                &&& world@.wf()
                &&& world@.cache == (CacheState {
                    slots: Seq::empty(),
                    frame: 0,
                    threshold: threshold as int,
                })
                &&& world@.resident == Seq::<Option<Resident>>::empty()
                &&& world@.queue == Seq::<ChangeView>::empty()
                &&& world@.fallback.sampler == world@.default_sampler
            },
            exists|
                sampled: &mut D,
                sampler: GpuSampler,
                asked: &mut D,
                answer: Result<GpuTexture, DeviceError>,
            |
                {
                    &&& *sampled == *old(device)
                    &&& #[trigger] call_ensures(
                        D::create_sampler,
                        (sampled, default_sampler),
                        sampler,
                    )
                    &&& *asked == *final(sampled)
                    &&& #[trigger] call_ensures(
                        D::create_texture,
                        (asked, &fallback_descriptor()),
                        answer,
                    )
                    &&& match answer {
                        Err(e) => r matches Err(refused) && refused == e && *final(device)
                            == *final(asked),
                        Ok(texture) => exists|
                            filled: &mut D,
                            pixels: &[u8],
                            viewed: &mut D,
                            view: GpuView,
                        |
                            {
                                &&& *filled == *final(asked)
                                &&& pixels@ == white_pixel().data
                                &&& #[trigger] call_ensures(
                                    D::upload,
                                    (filled, texture, pixels),
                                    (),
                                )
                                &&& *viewed == *final(filled)
                                &&& #[trigger] call_ensures(
                                    D::create_view,
                                    (viewed, texture, &whole_view(fallback_descriptor())),
                                    view,
                                )
                                &&& *final(device) == *final(viewed)
                                &&& r matches Ok(world)
                                &&& world@ == (RenderView {
                                    cache: CacheState {
                                        slots: Seq::empty(),
                                        frame: 0,
                                        threshold: threshold as int,
                                    },
                                    fallback: GpuImage {
                                        texture,
                                        view,
                                        sampler,
                                        extent: Extent { width: 1, height: 1 },
                                    },
                                    default_sampler: sampler,
                                    resident: Seq::empty(),
                                    queue: Seq::empty(),
                                })
                            },
                    }
                },
    {
        let sampler = device.create_sampler(default_sampler);
        match FallbackImage::create(device, sampler) {
            Ok(fallback) => {
                let world = RenderWorld {
                    cache: TextureCache::new(threshold),
                    fallback,
                    default_sampler: sampler,
                    resident: Vec::new(),
                    queue: Vec::new(),
                };
                assert(world@.queue =~= Seq::<ChangeView>::empty());
                Ok(world)
            },
            Err(e) => Err(e),
        }
    }

    /// The texture pool.
    pub fn cache(&self) -> (r: &TextureCache)
        ensures
            r@ == self@.cache,
    {
        &self.cache
    }

    /// The fallback resource.
    pub fn fallback(&self) -> (r: GpuImage)
        ensures
            r == self@.fallback,
    {
        self.fallback.gpu
    }

    /// The default sampler.
    pub fn default_sampler(&self) -> (r: GpuSampler)
        ensures
            r == self@.default_sampler,
    {
        self.default_sampler
    }

    /// Number of changes that wait to be prepared.
    pub fn queue_len(&self) -> (r: usize)
        ensures
            r == self@.queue.len(),
    {
        self.queue.len()
    }

    /// The prepared GPU image of `handle`, if it has one.
    pub fn gpu_image(&self, handle: Handle) -> (r: Option<GpuImage>)
        ensures
            r == self@.gpu_image(handle),
    {
        if handle.index < self.resident.len() {
            match self.resident[handle.index] {
                Some(r) => if r.generation == handle.generation {
                    Some(r.gpu)
                } else {
                    None
                },
                None => None,
            }
        } else {
            None
        }
    }

    /// What rendering code binds for `handle`: its prepared image, or the
    /// fallback where the handle has none, be it still loading, failed, removed
    /// or unknown.
    pub fn resolve(&self, handle: Handle) -> (r: GpuImage)
        ensures
            r == self@.resolve(handle),
    {
        match self.gpu_image(handle) {
            Some(gpu) => gpu,
            None => self.fallback.gpu,
        }
    }

    /// Gives back the pooled texture of whatever is resident for slot `index`
    /// and leaves the slot without a resident.
    fn evict_index(&mut self, index: usize)
        requires
            old(self)@.wf(),
        ensures
            final(self)@.wf(),
            final(self)@.same_frame(old(self)@),
            final(self)@.queue == old(self)@.queue,
            final(self)@ == old(self)@.vacated(index as int),
    {
        if index < self.resident.len() {
            if let Some(r) = self.resident[index] {
                let given = self.cache.release(&r.cached);
                self.resident[index] = None;
                assert(given);
                assert(self@.resident =~= old(self)@.resident.update(index as int, None));
                assert forall|i: int|
                    0 <= i < self@.resident.len() && (#[trigger] self@.resident[i]) is Some
                    implies self@.backed(self@.resident[i]->0) by {
                    assert(old(self)@.resident[i] is Some);
                    assert(old(self)@.resident[index as int] is Some);
                };
            }
        }
    }

    /// Removes what is resident for `handle` and gives its texture back to the
    /// pool. A handle with nothing resident changes nothing. Returns whether
    /// something was resident.
    pub fn unload(&mut self, handle: Handle) -> (r: bool)
        requires
            old(self)@.wf(),
        ensures
            r == old(self)@.gpu_image(handle) is Some,
            final(self)@.wf(),
            final(self)@ == if r {
                old(self)@.vacated(handle.index as int)
            } else {
                old(self)@
            },
    {
        if self.gpu_image(handle).is_some() {
            self.evict_index(handle.index);
            true
        } else {
            false
        }
    }

    /// Prepares one image: gives back the texture of whatever was resident for
    /// the handle's slot, takes a texture of the image's descriptor from the
    /// pool, uploads the pixels, and installs texture, view and sampler under
    /// the handle. The sampler is the default one unless the image asks for its
    /// own. If no texture can be had, nothing is resident for the slot, so the
    /// handle resolves to the fallback, and the device's error is returned.
    ///
    /// The last clause tells what was asked of the device: a sequence of calls
    /// with their answers, made one after the other from the device's state at
    /// entry to its state at exit, for which `stored` holds.
    pub fn prepare_asset<D: GpuDevice>(&mut self, device: &mut D, handle: Handle, image: &Image) -> (r:
        Result<GpuImage, DeviceError>)
        requires
            old(self)@.wf(),
        ensures
            final(self)@.wf(),
            final(self)@.same_frame(old(self)@),
            final(self)@.queue == old(self)@.queue,
            forall|x: int|
                x != handle.index ==> final(self)@.resident_at(x) == old(self)@.resident_at(x),
            old(self)@.vacated(handle.index as int).cache.has_free(image@.descriptor) ==> r is Ok,
            r matches Ok(gpu) ==> {
                &&& final(self)@.installed(handle, image@)
                &&& final(self)@.gpu_image(handle) == Some(gpu)
                &&& old(self)@.vacated(handle.index as int).cache.granted(
                    image@.descriptor,
                    final(self)@.resident_at(handle.index as int)->0.cached,
                    final(self)@.cache,
                )
            },
            r is Err ==> final(self)@ == old(self)@.vacated(handle.index as int),
            exists|devices: Seq<D>, calls: Seq<DeviceCall>|
                {
                    &&& devices.len() == calls.len() + 1
                    &&& devices[0] == *old(device)
                    &&& devices[calls.len() as int] == *final(device)
                    &&& forall|i: int|
                        0 <= i < calls.len() && #[trigger] at(i) ==> exists|m: &mut D|
                            *m == devices[i] && *final(m) == devices[i + 1] && answered(
                                m,
                                calls[i],
                            )
                    &&& old(self)@.stored(handle, image@, calls, r, final(self)@)
                },
    {
        self.evict_index(handle.index);
        let descriptor = image.descriptor();
        let ghost evicted = self@;
        let ghost d0 = *device;
        assert(evicted.resident_at(handle.index as int) is None);
        let got = self.cache.acquire(device, &descriptor);
        let ghost d1 = *device;
        let ghost taken = self@;
        let ghost (ds, cs) = choose|ds: Seq<D>, cs: Seq<DeviceCall>|
            {
                &&& ds.len() == cs.len() + 1
                &&& ds[0] == d0
                &&& ds[cs.len() as int] == d1
                &&& forall|i: int|
                    0 <= i < cs.len() && #[trigger] at(i) ==> exists|m: &mut D|
                        *m == ds[i] && *final(m) == ds[i + 1] && answered(m, cs[i])
                &&& evicted.cache.acquired(descriptor, cs, got, taken.cache)
            };
        match got {
            Ok(cached) => {
                let bytes = image.data().as_slice();
                device.upload(cached.texture, bytes);
                let ghost d2 = *device;
                let ghost filling = DeviceCall::Upload { into: cached.texture, bytes: image@.data };
                assert(exists|m: &mut D|
                    *m == d1 && *final(m) == d2 && #[trigger] answered(m, filling)) by {
                    let w = choose|m: &mut D|
                        *m == d1 && *final(m) == d2 && #[trigger] call_ensures(
                            D::upload,
                            (m, cached.texture, bytes),
                            (),
                        );
                    assert(answered(w, filling));
                }
                let sampler = match image.sampler() {
                    Some(own) => {
                        let made = device.create_sampler(&own);
                        assert(exists|m: &mut D|
                            *m == d2 && *final(m) == *device && #[trigger] answered(
                                m,
                                DeviceCall::CreateSampler { sampling: own, sampler: made },
                            )) by {
                            let w = choose|m: &mut D|
                                *m == d2 && *final(m) == *device && #[trigger] call_ensures(
                                    D::create_sampler,
                                    (m, &own),
                                    made,
                                );
                            assert(answered(
                                w,
                                DeviceCall::CreateSampler { sampling: own, sampler: made },
                            ));
                        }
                        made
                    },
                    None => self.default_sampler,
                };
                let ghost d3 = *device;
                let gpu = GpuImage {
                    texture: cached.texture,
                    view: cached.view,
                    sampler,
                    extent: descriptor.extent,
                };
                let resident = Resident { generation: handle.generation, descriptor, cached, gpu };
                proof {
                    self.cache.lemma_valid();
                    lemma_grant_keeps_backing(evicted, descriptor, cached, taken.cache);
                }
                while self.resident.len() <= handle.index
                    invariant
                        self@.cache == taken.cache,
                        self@.fallback == taken.fallback,
                        self@.default_sampler == taken.default_sampler,
                        self@.queue == taken.queue,
                        taken.resident.len() <= self@.resident.len(),
                        forall|x: int|
                            0 <= x < taken.resident.len() ==> self@.resident[x]
                                == taken.resident[x],
                        forall|x: int|
                            taken.resident.len() <= x < self@.resident.len()
                                ==> self@.resident[x] is None,
                    decreases handle.index + 1 - self.resident.len(),
                {
                    self.resident.push(None);
                }
                self.resident[handle.index] = Some(resident);
                assert(self@.backed(resident));
                assert forall|i: int|
                    0 <= i < self@.resident.len() && (#[trigger] self@.resident[i]) is Some
                    implies self@.backed(self@.resident[i]->0) by {
                    if i != handle.index {
                        assert(evicted.resident[i] is Some);
                    }
                };
                assert forall|i: int, j: int|
                    0 <= i < j < self@.resident.len() && (#[trigger] self@.resident[i]) is Some && (
                    #[trigger] self@.resident[j]) is Some implies self@.resident[i]->0.cached.slot
                    != self@.resident[j]->0.cached.slot by {
                    if i != handle.index {
                        assert(evicted.resident[i] is Some);
                    }
                    if j != handle.index {
                        assert(evicted.resident[j] is Some);
                    }
                };
                assert forall|x: int| x != handle.index implies self@.resident_at(x) == old(
                    self,
                )@.resident_at(x) by {
                    assert(self@.resident_at(x) == evicted.resident_at(x));
                    assert(evicted.resident_at(x) == old(self)@.resident_at(x));
                };
                proof {
                    let pooled = cs.push(filling);
                    let calls = if image@.sampler is Some {
                        pooled.push(
                            DeviceCall::CreateSampler {
                                sampling: image@.sampler->0,
                                sampler,
                            },
                        )
                    } else {
                        pooled
                    };
                    let devices = if image@.sampler is Some {
                        ds.push(d2).push(d3)
                    } else {
                        ds.push(d2)
                    };
                    assert(devices.len() == calls.len() + 1);
                    assert(devices[0] == d0);
                    assert(devices[calls.len() as int] == d3);
                    assert forall|i: int| 0 <= i < calls.len() && #[trigger] at(i) implies exists|m: &mut D|
                        *m == devices[i] && *final(m) == devices[i + 1] && answered(
                            m,
                            calls[i],
                        ) by {
                        if i < cs.len() {
                            assert(devices[i] == ds[i] && devices[i + 1] == ds[i + 1] && calls[i]
                                == cs[i]);
                        } else if i == cs.len() {
                            assert(devices[i] == d1 && devices[i + 1] == d2 && calls[i] == filling);
                        } else {
                            assert(devices[i] == d2 && devices[i + 1] == d3);
                        }
                    }
                    assert(calls.take(cs.len() as int) =~= cs);
                    assert(forall|x: int|
                        x != handle.index ==> self@.resident_at(x) == evicted.resident_at(x));
                    assert(evicted.cache.acquired(
                        descriptor,
                        calls.take(cs.len() as int),
                        got,
                        self@.cache,
                    ));
                    assert(old(self)@.stored(handle, image@, calls, Ok(gpu), self@));
                }
                Ok(gpu)
            },
            Err(e) => {
                assert forall|x: int| x != handle.index implies self@.resident_at(x) == old(
                    self,
                )@.resident_at(x) by {
                    assert(evicted.resident_at(x) == old(self)@.resident_at(x));
                };
                proof {
                    assert(cs.take(cs.len() as int) =~= cs);
                    assert(evicted.cache.acquired(
                        descriptor,
                        cs.take(cs.len() as int),
                        got,
                        self@.cache,
                    ));
                    assert(old(self)@.stored(handle, image@, cs, Err(e), self@));
                    assert(ds.len() == cs.len() + 1);
                }
                Err(e)
            },
        }
    }

    /// Applies one queued change: unloads the handle of a `Remove`, prepares
    /// the image of a `Store`. Returns the result of preparing, if it prepared.
    fn apply_change<D: GpuDevice>(&mut self, device: &mut D, change: &Change) -> (result: Option<
        Result<GpuImage, DeviceError>,
    >)
        requires
            old(self)@.wf(),
        ensures
            final(self)@.wf(),
            final(self)@.queue == old(self)@.queue,
            exists|devices: Seq<D>, calls: Seq<DeviceCall>|
                {
                    &&& devices.len() == calls.len() + 1
                    &&& devices[0] == *old(device)
                    &&& devices[calls.len() as int] == *final(device)
                    &&& forall|i: int|
                        0 <= i < calls.len() && #[trigger] at(i) ==> exists|m: &mut D|
                            *m == devices[i] && *final(m) == devices[i + 1] && answered(
                                m,
                                calls[i],
                            )
                    &&& old(self)@.stepped(change@, calls, result, final(self)@)
                },
    {
        let ghost d0 = *device;
        match change {
            Change::Store { handle, image } => {
                let r = self.prepare_asset(device, *handle, image);
                let ghost (ds, cs) = choose|ds: Seq<D>, cs: Seq<DeviceCall>|
                    {
                        &&& ds.len() == cs.len() + 1
                        &&& ds[0] == d0
                        &&& ds[cs.len() as int] == *device
                        &&& forall|k: int|
                            0 <= k < cs.len() && #[trigger] at(k) ==> exists|m: &mut D|
                                *m == ds[k] && *final(m) == ds[k + 1] && answered(
                                    m,
                                    cs[k],
                                )
                        &&& old(self)@.stored(*handle, image@, cs, r, self@)
                    };
                proof {
                    assert(old(self)@.stepped(change@, cs, Some(r), self@));
                    assert(ds.len() == cs.len() + 1);
                }
                Some(r)
            },
            Change::Remove { handle } => {
                self.unload(*handle);
                proof {
                    let ds = seq![d0];
                    let cs = Seq::<DeviceCall>::empty();
                    assert(old(self)@.stepped(change@, cs, None, self@));
                    assert(ds.len() == cs.len() + 1 && ds[0] == d0);
                }
                None
            },
        }
    }

    /// The prepare stage. Applies every queued change in order: a `Remove`
    /// unloads its handle, a `Store` prepares its image. The queue is empty
    /// afterwards, so a second run in the same frame finds nothing to do: it
    /// changes nothing and does not touch the device. An image that could not
    /// be prepared is reported in the result, resolves to the fallback, and
    /// holds up no other image.
    ///
    /// The last clause gives the run step by step: the calls that were made to
    /// the device, one after the other from its state at entry to its state at
    /// exit, and a chain of worlds, one step for each queued change, for which
    /// `ran` holds.
    pub fn prepare<D: GpuDevice>(&mut self, device: &mut D) -> (report: Vec<PrepareFailure>)
        requires
            old(self)@.wf(),
        ensures
            final(self)@.prepared(old(self)@, report@),
            old(self)@.queue.len() == 0 ==> *final(device) == *old(device),
            exists|
                worlds: Seq<RenderView>,
                failed: Seq<Option<Result<GpuImage, DeviceError>>>,
                devices: Seq<D>,
                calls: Seq<DeviceCall>,
                cuts: Seq<int>,
            |
                {
                    &&& devices.len() == calls.len() + 1
                    &&& devices[0] == *old(device)
                    &&& devices[calls.len() as int] == *final(device)
                    &&& forall|i: int|
                        0 <= i < calls.len() && #[trigger] at(i) ==> exists|m: &mut D|
                            *m == devices[i] && *final(m) == devices[i + 1] && answered(
                                m,
                                calls[i],
                            )
                    &&& old(self)@.ran(worlds, failed, calls, cuts, report@, final(self)@)
                },
    {
        let mut report: Vec<PrepareFailure> = Vec::new();
        let mut queue: Vec<Change> = Vec::new();
        core::mem::swap(&mut self.queue, &mut queue);
        assert(self@.queue =~= Seq::<ChangeView>::empty());
        let ghost before = old(self)@;
        let ghost mut worlds: Seq<RenderView> = seq![self@];
        let ghost mut failed: Seq<Option<Result<GpuImage, DeviceError>>> = Seq::empty();
        proof {
            lemma_no_world_yet(before);
            assert(self@ == (RenderView { queue: Seq::empty(), ..before }));
            let devices = seq![*device];
            let calls = Seq::<DeviceCall>::empty();
            let cuts = seq![0int];
            assert(devices.len() == calls.len() + 1 && devices[0] == *device && worlds_so_far(
                before,
                worlds,
                failed,
                calls,
                cuts,
                0,
            ));
        }
        let mut i: usize = 0;
        while i < queue.len()
            invariant
                i <= queue.len(),
                before == old(self)@,
                before.wf(),
                change_views(queue@) == before.queue,
                self@.queue.len() == 0,
                self@.wf(),
                worlds.len() == i + 1,
                failed.len() == i,
                worlds[i as int] == self@,
                report@ == failures(before.queue, failed, i as int),
                exists|devices: Seq<D>, calls: Seq<DeviceCall>, cuts: Seq<int>|
                    {
                        &&& devices.len() == calls.len() + 1
                        &&& devices[0] == *old(device)
                        &&& devices[calls.len() as int] == *device
                        &&& forall|k: int|
                            0 <= k < calls.len() && #[trigger] at(k) ==> exists|m: &mut D|
                                *m == devices[k] && *final(m) == devices[k + 1]
                                    && answered(m, calls[k])
                        &&& worlds_so_far(before, worlds, failed, calls, cuts, i as int)
                    },
            decreases queue.len() - i,
        {
            let ghost now = self@;
            let ghost d0 = *device;
            let ghost worlds0 = worlds;
            let ghost failed0 = failed;
            assert(before.queue[i as int] == queue@[i as int]@);
            let ghost (devices, calls, cuts) = choose|
                devices: Seq<D>,
                calls: Seq<DeviceCall>,
                cuts: Seq<int>,
            |
                {
                    &&& devices.len() == calls.len() + 1
                    &&& devices[0] == *old(device)
                    &&& devices[calls.len() as int] == *device
                    &&& forall|k: int|
                        0 <= k < calls.len() && #[trigger] at(k) ==> exists|m: &mut D|
                            *m == devices[k] && *final(m) == devices[k + 1] && answered(
                                m,
                                calls[k],
                            )
                    &&& worlds_so_far(before, worlds, failed, calls, cuts, i as int)
                };
            let result = self.apply_change(device, &queue[i]);
            let ghost (ds, cs) = choose|ds: Seq<D>, cs: Seq<DeviceCall>|
                {
                    &&& ds.len() == cs.len() + 1
                    &&& ds[0] == d0
                    &&& ds[cs.len() as int] == *device
                    &&& forall|k: int|
                        0 <= k < cs.len() && #[trigger] at(k) ==> exists|m: &mut D|
                            *m == ds[k] && *final(m) == ds[k + 1] && answered(m, cs[k])
                    &&& now.stepped(before.queue[i as int], cs, result, self@)
                };
            match result {
                Some(Err(error)) => {
                    match &queue[i] {
                        Change::Store { handle, .. } => {
                            report.push(PrepareFailure { handle: *handle, error });
                        },
                        Change::Remove { .. } => {},
                    }
                },
                _ => {},
            }
            proof {
                worlds = worlds.push(self@);
                failed = failed.push(result);
                lemma_world_added(before, worlds0, failed0, calls, cuts, i as int, cs, result, self@);
                lemma_report_grows(before.queue, failed0, result, i as int, now, cs, self@);
                let devices1 = devices + ds.skip(1);
                let calls1 = calls + cs;
                let cuts1 = cuts.push((calls.len() + cs.len()) as int);
                assert(devices1[0] == devices[0]);
                assert(devices1[calls1.len() as int] == ds[cs.len() as int]);
                assert forall|k: int| 0 <= k < calls1.len() && #[trigger] at(k) implies exists|m: &mut D|
                    *m == devices1[k] && *final(m) == devices1[k + 1] && answered(
                        m,
                        calls1[k],
                    ) by {
                    if k < calls.len() {
                        assert(at(k));
                        assert(devices1[k] == devices[k] && devices1[k + 1] == devices[k + 1]
                            && calls1[k] == calls[k]);
                    } else {
                        let j = k - calls.len();
                        assert(at(j));
                        assert(devices1[k] == ds[j] && devices1[k + 1] == ds[j + 1] && calls1[k]
                            == cs[j]);
                    }
                }
                assert(devices1.len() == calls1.len() + 1 && worlds_so_far(
                    before,
                    worlds,
                    failed,
                    calls1,
                    cuts1,
                    i + 1,
                ));
            }
            i = i + 1;
        }
        let ghost (devices, calls, cuts) = choose|
            devices: Seq<D>,
            calls: Seq<DeviceCall>,
            cuts: Seq<int>,
        |
            {
                &&& devices.len() == calls.len() + 1
                &&& devices[0] == *old(device)
                &&& devices[calls.len() as int] == *device
                &&& forall|k: int|
                    0 <= k < calls.len() && #[trigger] at(k) ==> exists|m: &mut D|
                        *m == devices[k] && *final(m) == devices[k + 1] && answered(
                            m,
                            calls[k],
                        )
                &&& worlds_so_far(before, worlds, failed, calls, cuts, i as int)
            };
        proof {
            reveal(worlds_so_far);
            assert(i == before.queue.len());
            assert forall|p: int| 0 <= p < before.queue.len() implies cuts[p] <= cuts[p + 1] && (
            #[trigger] worlds[p]).stepped(
                before.queue[p],
                calls.subrange(cuts[p], cuts[p + 1]),
                failed[p],
                worlds[p + 1],
            ) by {
                assert(step(p));
            }
            assert(before.ran(worlds, failed, calls, cuts, report@, self@));
            assert forall|p: int| 0 <= p < before.queue.len() implies #[trigger] moved(
                worlds,
                before.queue,
                failed,
                p,
            ) by {
                assert(worlds[p].stepped(
                    before.queue[p],
                    calls.subrange(cuts[p], cuts[p + 1]),
                    failed[p],
                    worlds[p + 1],
                ));
            }
            lemma_chain_applies(before, worlds, failed, before.queue.len() as int);
            if before.queue.len() == 0 {
                assert(before.queue =~= Seq::<ChangeView>::empty());
            }
        }
        report
    }

    /// The cleanup stage. Ends the frame in the texture pool and returns the
    /// textures that the pool dropped, for the caller to destroy on the device.
    /// A texture that a prepared image occupies is in use and is never dropped.
    pub fn cleanup(&mut self) -> (destroyed: Vec<GpuTexture>)
        requires
            old(self)@.wf(),
            old(self)@.cache.frame < u64::MAX,
        ensures
            final(self)@ == old(self)@.cleaned(),
            final(self)@.wf(),
            destroyed@ == old(self)@.cache.evicted(),
    {
        let destroyed = self.cache.end_frame();
        proof {
            self.cache.lemma_valid();
        }
        destroyed
    }
}

/// The failures of the first `n` steps do not depend on the steps after them.
proof fn lemma_failures_step(
    queue: Seq<ChangeView>,
    shorter: Seq<Option<Result<GpuImage, DeviceError>>>,
    longer: Seq<Option<Result<GpuImage, DeviceError>>>,
    n: int,
)
    requires
        0 <= n <= shorter.len() <= longer.len(),
        forall|k: int| 0 <= k < shorter.len() ==> shorter[k] == longer[k],
    ensures
        failures(queue, shorter, n) == failures(queue, longer, n),
    decreases n,
{
    if n > 0 {
        lemma_failures_step(queue, shorter, longer, n - 1);
    }
}

/// What the report gains by step `n`: the failure of a `Store` whose result
/// is an error, and nothing else.
proof fn lemma_report_grows(
    queue: Seq<ChangeView>,
    failed: Seq<Option<Result<GpuImage, DeviceError>>>,
    result: Option<Result<GpuImage, DeviceError>>,
    n: int,
    now: RenderView,
    calls: Seq<DeviceCall>,
    after: RenderView,
)
    requires
        0 <= n < queue.len(),
        failed.len() == n,
        now.stepped(queue[n], calls, result, after),
    ensures
        queue[n] is Remove ==> result is None,
        queue[n] is Store ==> result is Some,
        failures(queue, failed.push(result), n + 1) == match (queue[n], result) {
            (ChangeView::Store { handle, .. }, Some(Err(error))) => failures(
                queue,
                failed,
                n,
            ).push(PrepareFailure { handle, error }),
            _ => failures(queue, failed, n),
        },
{
    lemma_failures_step(queue, failed, failed.push(result), n);
}

/// Names step `p`; it holds of every step.
spec fn step(p: int) -> bool {
    true
}

/// The first `n` steps of a run: what `ran` says, for a prefix of the queue.
#[verifier::opaque]
spec fn worlds_so_far(
    before: RenderView,
    worlds: Seq<RenderView>,
    failed: Seq<Option<Result<GpuImage, DeviceError>>>,
    calls: Seq<DeviceCall>,
    cuts: Seq<int>,
    n: int,
) -> bool {
    &&& 0 <= n <= before.queue.len()
    &&& worlds.len() == n + 1
    &&& failed.len() == n
    &&& cuts.len() == n + 1
    &&& worlds[0] == (RenderView { queue: Seq::empty(), ..before })
    &&& cuts[0] == 0
    &&& cuts[n] == calls.len()
    &&& forall|p: int|
        0 <= p < n && #[trigger] step(p) ==> 0 <= cuts[p] <= cuts[p + 1] && worlds[p].stepped(
            before.queue[p],
            calls.subrange(cuts[p], cuts[p + 1]),
            failed[p],
            worlds[p + 1],
        )
}

/// Nothing has run yet.
proof fn lemma_no_world_yet(before: RenderView)
    ensures
        worlds_so_far(
            before,
            seq![RenderView { queue: Seq::empty(), ..before }],
            Seq::empty(),
            Seq::empty(),
            seq![0int],
            0,
        ),
{
    reveal(worlds_so_far);
}

/// One more step at the end of the first `n` steps gives the first `n + 1` steps.
proof fn lemma_world_added(
    before: RenderView,
    worlds: Seq<RenderView>,
    failed: Seq<Option<Result<GpuImage, DeviceError>>>,
    calls: Seq<DeviceCall>,
    cuts: Seq<int>,
    n: int,
    more: Seq<DeviceCall>,
    outcome: Option<Result<GpuImage, DeviceError>>,
    world: RenderView,
)
    requires
        worlds_so_far(before, worlds, failed, calls, cuts, n),
        n < before.queue.len(),
        worlds[n].stepped(before.queue[n], more, outcome, world),
    ensures
        worlds_so_far(
            before,
            worlds.push(world),
            failed.push(outcome),
            calls + more,
            cuts.push((calls.len() + more.len()) as int),
            n + 1,
        ),
        failures(before.queue, failed.push(outcome), n) == failures(before.queue, failed, n),
{
    reveal(worlds_so_far);
    let worlds1 = worlds.push(world);
    let failed1 = failed.push(outcome);
    let calls1 = calls + more;
    let cuts1 = cuts.push((calls.len() + more.len()) as int);
    lemma_cuts_stay_inside(before, worlds, failed, calls, cuts, n, n);
    assert forall|p: int| 0 <= p < n + 1 && #[trigger] step(p) implies 0 <= cuts1[p] <= cuts1[p
        + 1] && worlds1[p].stepped(
        before.queue[p],
        calls1.subrange(cuts1[p], cuts1[p + 1]),
        failed1[p],
        worlds1[p + 1],
    ) by {
        if p < n {
            lemma_cuts_stay_inside(before, worlds, failed, calls, cuts, n, p + 1);
            assert(step(p));
            assert(worlds[p].stepped(
                before.queue[p],
                calls.subrange(cuts[p], cuts[p + 1]),
                failed[p],
                worlds[p + 1],
            ));
            assert(calls1.subrange(cuts1[p], cuts1[p + 1]) =~= calls.subrange(
                cuts[p],
                cuts[p + 1],
            ));
        } else {
            assert(calls1.subrange(cuts1[p], cuts1[p + 1]) =~= more);
        }
    }
    lemma_failures_step(before.queue, failed, failed1, n);
}

/// Every cut lies within the calls made so far.
proof fn lemma_cuts_stay_inside(
    before: RenderView,
    worlds: Seq<RenderView>,
    failed: Seq<Option<Result<GpuImage, DeviceError>>>,
    calls: Seq<DeviceCall>,
    cuts: Seq<int>,
    n: int,
    p: int,
)
    requires
        worlds_so_far(before, worlds, failed, calls, cuts, n),
        0 <= p <= n,
    ensures
        0 <= cuts[p] <= calls.len(),
    decreases n - p,
{
    reveal(worlds_so_far);
    if p < n {
        lemma_cuts_stay_inside(before, worlds, failed, calls, cuts, n, p + 1);
        assert(step(p));
    }
}

/// A chain of steps applies the queue: after the first `n` steps the world is
/// what `applied` says, with the failures of those steps as the report.
proof fn lemma_chain_applies(
    before: RenderView,
    worlds: Seq<RenderView>,
    failed: Seq<Option<Result<GpuImage, DeviceError>>>,
    n: int,
)
    requires
        before.wf(),
        0 <= n <= before.queue.len(),
        worlds.len() == before.queue.len() + 1,
        failed.len() == before.queue.len(),
        worlds[0] == (RenderView { queue: Seq::empty(), ..before }),
        forall|p: int| 0 <= p < n ==> #[trigger] moved(worlds, before.queue, failed, p),
    ensures
        worlds[n].applied(before, failures(before.queue, failed, n), n),
        worlds[n].queue.len() == 0,
    decreases n,
{
    if n > 0 {
        lemma_chain_applies(before, worlds, failed, n - 1);
        let now = worlds[n - 1];
        let after = worlds[n];
        let so_far = failures(before.queue, failed, n - 1);
        let report = failures(before.queue, failed, n);
        assert(moved(worlds, before.queue, failed, n - 1));
        let calls = choose|calls: Seq<DeviceCall>| #[trigger]
            now.stepped(before.queue[n - 1], calls, failed[n - 1], after);
        match before.queue[n - 1] {
            ChangeView::Remove { handle } => {
                assert(report == so_far);
                lemma_applied_remove(before, now, after, report, n - 1);
            },
            ChangeView::Store { handle, image } => {
                let r = failed[n - 1]->0;
                assert forall|x: int| x != handle.index implies after.resident_at(x)
                    == now.resident_at(x) by {
                    assert(now.vacated(handle.index as int).resident_at(x) == now.resident_at(x));
                }
                if r is Err {
                    assert(report == so_far.push(
                        PrepareFailure { handle, error: r->Err_0 },
                    ));
                    assert(report.last().handle == handle);
                } else {
                    assert(report == so_far);
                    assert(after.installed(handle, image));
                }
                lemma_applied_store(before, now, after, so_far, report, n - 1);
            },
        }
    }
}

/// Handing out a texture disturbs no prepared image: each still occupies its
/// own pooled texture, and none occupies the one handed out.
proof fn lemma_grant_keeps_backing(
    world: RenderView,
    descriptor: TextureDescriptor,
    cached: CachedTexture,
    cache: CacheState,
)
    requires
        world.wf(),
        world.cache.granted(descriptor, cached, cache),
    ensures
        cache.holds(cached),
        cache.slots[cached.slot as int]->0.descriptor == descriptor,
        forall|i: int|
            0 <= i < world.resident.len() && (#[trigger] world.resident[i]) is Some ==> {
                &&& (RenderView { cache, ..world }).backed(world.resident[i]->0)
                &&& world.resident[i]->0.cached.slot != cached.slot
            },
{
    assert forall|i: int|
        0 <= i < world.resident.len() && (#[trigger] world.resident[i]) is Some implies {
        &&& (RenderView { cache, ..world }).backed(world.resident[i]->0)
        &&& world.resident[i]->0.cached.slot != cached.slot
    } by {
        assert(world.backed(world.resident[i]->0));
    };
}

/// One more `Store` was applied: `after` results from `now` by preparing the
/// image of change `n`.
proof fn lemma_applied_store(
    before: RenderView,
    now: RenderView,
    after: RenderView,
    so_far: Seq<PrepareFailure>,
    report: Seq<PrepareFailure>,
    n: int,
)
    requires
        0 <= n < before.queue.len(),
        before.queue[n] is Store,
        now.applied(before, so_far, n),
        after.wf(),
        after.same_frame(now),
        forall|x: int|
            x != before.queue[n]->Store_handle.index ==> after.resident_at(x) == now.resident_at(x),
        after.installed(before.queue[n]->Store_handle, before.queue[n]->Store_image) || (
        after.resident_at(before.queue[n]->Store_handle.index as int) is None && report
            == so_far.push(report.last()) && report.last().handle
            == before.queue[n]->Store_handle),
        report == so_far || report == so_far.push(report.last()),
        report != so_far ==> report.last().handle == before.queue[n]->Store_handle,
    ensures
        after.applied(before, report, n + 1),
{
    let queue = before.queue;
    let stored = queue[n]->Store_handle;
    assert forall|handle: Handle| #[trigger] untouched(queue, handle, n + 1) implies after.gpu_image(
        handle,
    ) == before.gpu_image(handle) by {
        assert(untouched(queue, handle, n));
        assert(!affects(queue[n], handle));
    };
    assert forall|p: int|
        0 <= p < n + 1 && (#[trigger] queue[p]) is Remove && not_stored_after(
            queue,
            p,
            queue[p]->Remove_handle,
            n + 1,
        ) implies after.gpu_image(queue[p]->Remove_handle) is None by {
        let h = queue[p]->Remove_handle;
        assert(p < n);
        assert(not_stored_after(queue, p, h, n));
        assert(!stores(queue[n], h));
    };
    assert forall|k: int| 0 <= k < so_far.len() implies reported(report, so_far[k].handle) by {
        assert(report[k] == so_far[k]);
    };
    assert forall|p: int|
        0 <= p < n + 1 && (#[trigger] queue[p]) is Store && last_word(
            queue,
            p,
            queue[p]->Store_handle,
            n + 1,
        ) implies after.installed(queue[p]->Store_handle, queue[p]->Store_image) || (reported(
        report,
        queue[p]->Store_handle,
    ) && after.resident_at(queue[p]->Store_handle.index as int) is None) by {
        let h = queue[p]->Store_handle;
        if p < n {
            assert(last_word(queue, p, h, n));
            assert(!affects(queue[n], h));
            if reported(so_far, h) {
                let k = choose|k: int| 0 <= k < so_far.len() && so_far[k].handle == h;
                assert(report[k] == so_far[k]);
            }
        } else {
            if report != so_far {
                assert(report[report.len() - 1].handle == h);
            }
        }
    };
    assert forall|k: int| 0 <= k < report.len() implies exists|p: int|
        0 <= p < n + 1 && stores(#[trigger] queue[p], (#[trigger] report[k]).handle) by {
        if k < so_far.len() {
            assert(report[k] == so_far[k]);
            let p = choose|p: int| 0 <= p < n && stores(#[trigger] queue[p], so_far[k].handle);
            assert(stores(queue[p], report[k].handle));
        } else {
            assert(stores(queue[n], report[k].handle));
        }
    };
    assert forall|handle: Handle| (#[trigger] after.gpu_image(handle)) is Some implies after.gpu_image(
        handle,
    ) == before.gpu_image(handle) || stored_before(queue, handle, n + 1) by {
        if handle.index == stored.index {
            assert(after.installed(stored, queue[n]->Store_image));
            assert(stores(queue[n], handle));
        } else {
            assert(now.gpu_image(handle) == after.gpu_image(handle));
            if stored_before(queue, handle, n) {
                let p = choose|p: int| 0 <= p < n && stores(#[trigger] queue[p], handle);
                assert(stores(queue[p], handle));
            }
        }
    };
}

/// One more `Remove` was applied: `after` results from `now` by unloading the
/// handle of change `n`.
proof fn lemma_applied_remove(
    before: RenderView,
    now: RenderView,
    after: RenderView,
    report: Seq<PrepareFailure>,
    n: int,
)
    requires
        0 <= n < before.queue.len(),
        before.queue[n] is Remove,
        now.applied(before, report, n),
        after.wf(),
        after.same_frame(now),
        after.gpu_image(before.queue[n]->Remove_handle) is None,
        forall|x: int|
            x != before.queue[n]->Remove_handle.index ==> after.resident_at(x) == now.resident_at(
                x,
            ),
        now.gpu_image(before.queue[n]->Remove_handle) is None ==> after == now,
        now.gpu_image(before.queue[n]->Remove_handle) is Some ==> after.resident_at(
            before.queue[n]->Remove_handle.index as int,
        ) is None,
    ensures
        after.applied(before, report, n + 1),
{
    let queue = before.queue;
    let removed = queue[n]->Remove_handle;
    assert forall|handle: Handle| #[trigger] untouched(queue, handle, n + 1) implies after.gpu_image(
        handle,
    ) == before.gpu_image(handle) by {
        assert(untouched(queue, handle, n));
        assert(!affects(queue[n], handle));
    };
    assert forall|p: int|
        0 <= p < n + 1 && (#[trigger] queue[p]) is Remove && not_stored_after(
            queue,
            p,
            queue[p]->Remove_handle,
            n + 1,
        ) implies after.gpu_image(queue[p]->Remove_handle) is None by {
        let h = queue[p]->Remove_handle;
        if p < n {
            assert(not_stored_after(queue, p, h, n));
        }
    };
    assert forall|p: int|
        0 <= p < n + 1 && (#[trigger] queue[p]) is Store && last_word(
            queue,
            p,
            queue[p]->Store_handle,
            n + 1,
        ) implies after.installed(queue[p]->Store_handle, queue[p]->Store_image) || (reported(
        report,
        queue[p]->Store_handle,
    ) && after.resident_at(queue[p]->Store_handle.index as int) is None) by {
        let h = queue[p]->Store_handle;
        assert(p < n);
        assert(last_word(queue, p, h, n));
        assert(!affects(queue[n], h));
    };
    assert forall|k: int| 0 <= k < report.len() implies exists|p: int|
        0 <= p < n + 1 && stores(#[trigger] queue[p], (#[trigger] report[k]).handle) by {
        let p = choose|p: int| 0 <= p < n && stores(#[trigger] queue[p], report[k].handle);
        assert(stores(queue[p], report[k].handle));
    };
    assert forall|handle: Handle| (#[trigger] after.gpu_image(handle)) is Some implies after.gpu_image(
        handle,
    ) == before.gpu_image(handle) || stored_before(queue, handle, n + 1) by {
        assert(now.gpu_image(handle) == after.gpu_image(handle));
        if stored_before(queue, handle, n) {
            let p = choose|p: int| 0 <= p < n && stores(#[trigger] queue[p], handle);
            assert(stores(queue[p], handle));
        }
    };
}

/// The extract stage. Moves what changed in the application world since the
/// last extraction to the end of the render world's queue: the removals first,
/// then a copy of every new or changed image, each under the handle it has in
/// the application world. What is already prepared stays as it is.
pub fn extract(app: &mut AssetTable, render: &mut RenderWorld)
    ensures
        final(app)@ == old(app)@.settled(),
        final(render)@ == old(render)@.enqueued(old(app)@.changes()),
{
    let mut changes = app.take_changes();
    let ghost queued = render.queue@;
    let ghost fresh = changes@;
    render.queue.append(&mut changes);
    assert(change_views(render.queue@) =~= change_views(queued) + change_views(fresh));
}

/// What one frame reports: the images that could not be prepared, and the
/// textures that left the pool and are to be destroyed.
#[derive(Debug)]
pub struct FrameReport {
    pub failures: Vec<PrepareFailure>,
    pub destroyed: Vec<GpuTexture>,
}

/// Runs the three stages of one frame in their fixed order: extract, prepare, cleanup.
pub fn run_frame<D: GpuDevice>(app: &mut AssetTable, render: &mut RenderWorld, device: &mut D) -> (r:
    FrameReport)
    requires
        old(render)@.wf(),
        old(render)@.cache.frame < u64::MAX,
    ensures
        final(app)@ == old(app)@.settled(),
        final(render)@.wf(),
        exists|mid: RenderView|
            {
                &&& #[trigger] mid.prepared(
                    old(render)@.enqueued(old(app)@.changes()),
                    r.failures@,
                )
                &&& final(render)@ == mid.cleaned()
                &&& r.destroyed@ == mid.cache.evicted()
            },
        exists|
            mid: RenderView,
            worlds: Seq<RenderView>,
            failed: Seq<Option<Result<GpuImage, DeviceError>>>,
            devices: Seq<D>,
            calls: Seq<DeviceCall>,
            cuts: Seq<int>,
        |
            {
                &&& devices.len() == calls.len() + 1
                &&& devices[0] == *old(device)
                &&& devices[calls.len() as int] == *final(device)
                &&& forall|i: int|
                    0 <= i < calls.len() && #[trigger] at(i) ==> exists|m: &mut D|
                        *m == devices[i] && *final(m) == devices[i + 1] && answered(m, calls[i])
                &&& old(render)@.enqueued(old(app)@.changes()).ran(
                    worlds,
                    failed,
                    calls,
                    cuts,
                    r.failures@,
                    mid,
                )
                &&& final(render)@ == mid.cleaned()
                &&& r.destroyed@ == mid.cache.evicted()
            },
{
    extract(app, render);
    let ghost queued = render@;
    let ghost d0 = *device;
    let failures = render.prepare(device);
    let ghost mid = render@;
    let ghost (worlds, failed, devices, calls, cuts) = choose|
        worlds: Seq<RenderView>,
        failed: Seq<Option<Result<GpuImage, DeviceError>>>,
        devices: Seq<D>,
        calls: Seq<DeviceCall>,
        cuts: Seq<int>,
    |
        {
            &&& devices.len() == calls.len() + 1
            &&& devices[0] == d0
            &&& devices[calls.len() as int] == *device
            &&& forall|i: int|
                0 <= i < calls.len() && #[trigger] at(i) ==> exists|m: &mut D|
                    *m == devices[i] && *final(m) == devices[i + 1] && answered(m, calls[i])
            &&& queued.ran(worlds, failed, calls, cuts, failures@, mid)
        };
    let destroyed = render.cleanup();
    let r = FrameReport { failures, destroyed };
    assert(mid.prepared(old(render)@.enqueued(old(app)@.changes()), r.failures@));
    assert(devices.len() == calls.len() + 1 && queued.ran(
        worlds,
        failed,
        calls,
        cuts,
        r.failures@,
        mid,
    ));
    r
}

/// Prepare is idempotent within a frame. A second run right after the first
/// finds the queue empty: it changes nothing in the render world and reports
/// nothing. (With an empty queue `prepare` also leaves the device as it is.)
pub proof fn lemma_prepare_is_idempotent(
    before: RenderView,
    once: RenderView,
    first_report: Seq<PrepareFailure>,
    twice: RenderView,
    second_report: Seq<PrepareFailure>,
)
    requires
        once.prepared(before, first_report),
        twice.prepared(once, second_report),
    ensures
        twice == once,
        second_report.len() == 0,
{
}

/// An asset that has failed to load gets the fallback. Extraction queues no
/// image for its handle, so prepare creates no texture for it, and once the
/// extracted changes are prepared the handle resolves to the fallback
/// resource, whatever was resident or queued for it before.
pub proof fn lemma_failed_asset_gets_fallback(
    app: AssetsView,
    handle: Handle,
    render: RenderView,
    after: RenderView,
    report: Seq<PrepareFailure>,
)
    requires
        app.valid(),
        app.load_state(handle) == crate::assets::LoadState::Failed,
        after.prepared(render.enqueued(app.changes()), report),
    ensures
        forall|p: int| 0 <= p < app.changes().len() ==> !stores(#[trigger] app.changes()[p], handle),
        after.gpu_image(handle) is None,
        after.resolve(handle) == render.fallback,
{
    let changes = app.changes();
    let queue = render.queue + changes;
    let shift = render.queue.len() as int;
    app.lemma_changes_sound();
    app.lemma_changes_complete();
    assert forall|p: int| 0 <= p < changes.len() implies !stores(#[trigger] changes[p], handle) by {
        assert(app.announces(changes[p]));
    };
    assert(app.slots[handle.index as int].state is Failed);
    assert(app.handle_of(handle.index as int) == handle);
    let removal = ChangeView::Remove { handle };
    assert(changes.contains(removal));
    let p = choose|p: int| 0 <= p < changes.len() && changes[p] == removal;
    assert(queue[shift + p] == removal);
    assert(not_stored_after(queue, shift + p, handle, queue.len() as int)) by {
        assert forall|q: int| shift + p < q < queue.len() implies !stores(
            #[trigger] queue[q],
            handle,
        ) by {
            assert(queue[q] == changes[q - shift]);
        };
    };
    assert(after.applied(render.enqueued(changes), report, queue.len() as int));
    assert(queue[shift + p] is Remove);
}

} // verus!

//! A pool of GPU textures keyed by descriptor. A texture is created only when no
//! free texture of the requested descriptor is pooled, and a released texture is
//! kept for a grace window of frames before it is destroyed.

use vstd::prelude::*;
use crate::device::{
    answered, at, whole_view, DeviceCall, DeviceError, GpuDevice, GpuTexture, GpuView, ViewDescriptor,
};
use crate::image::TextureDescriptor;

verus! {

/// Frames a released texture is kept when no other threshold is asked for.
pub const DEFAULT_EVICTION_THRESHOLD: u64 = 3;

/// One pooled texture.
#[derive(Clone, Copy, Debug, PartialEq, Eq, Structural)]
pub struct CacheEntry {
    pub descriptor: TextureDescriptor,
    pub texture: GpuTexture,
    pub view: GpuView,
    /// The frame in which the texture was last handed out or given back.
    pub last_used: u64,
    /// Whether a caller currently holds the texture.
    pub in_use: bool,
}

/// What `acquire` hands out: the texture, its view, and the slot of the pool that
/// owns them. The holder owns nothing; it gives the handle back with `release`.
#[derive(Clone, Copy, Debug, PartialEq, Eq, Structural)]
pub struct CachedTexture {
    pub slot: usize,
    pub texture: GpuTexture,
    pub view: GpuView,
}

/// The pool as a value: its slots, the frame counter and the eviction threshold.
pub struct CacheState {
    pub slots: Seq<Option<CacheEntry>>,
    pub frame: int,
    pub threshold: int,
}

impl CacheState {
    /// The counters are those of a real pool: they fit 64 bits and are not negative.
    pub open spec fn valid(self) -> bool {
        &&& 0 <= self.frame <= u64::MAX
        &&& 0 <= self.threshold <= u64::MAX
    }

    /// Slot `i` holds a free texture of exactly this descriptor.
    pub open spec fn free_at(self, descriptor: TextureDescriptor, i: int) -> bool {
        &&& 0 <= i < self.slots.len()
        &&& self.slots[i] matches Some(e)
        &&& !e.in_use
        &&& e.descriptor == descriptor
    }

    /// Some slot holds a free texture of exactly this descriptor.
    pub open spec fn has_free(self, descriptor: TextureDescriptor) -> bool {
        exists|i: int| self.free_at(descriptor, i)
    }

    /// Slot `i` is the lowest slot with a free texture of this descriptor.
    pub open spec fn first_free(self, descriptor: TextureDescriptor, i: int) -> bool {
        &&& self.free_at(descriptor, i)
        &&& forall|j: int| 0 <= j < i ==> !self.free_at(descriptor, j)
    }

    /// Slot `i` is the lowest empty slot, or one past the last slot if none is empty.
    pub open spec fn first_vacant(self, i: int) -> bool {
        &&& 0 <= i <= self.slots.len()
        &&& i < self.slots.len() ==> self.slots[i] is None
        &&& forall|j: int| 0 <= j < i ==> self.slots[j] is Some
    }

    /// The handle is that of a texture which the pool has handed out and not got back.
    pub open spec fn holds(self, handle: CachedTexture) -> bool {
        &&& handle.slot < self.slots.len()
        &&& self.slots[handle.slot as int] matches Some(e)
        &&& e.in_use
        &&& e.texture == handle.texture
        &&& e.view == handle.view
    }

    /// The pool after the free texture in slot `i` was handed out in the current frame.
    pub open spec fn taken(self, i: int) -> CacheState
        recommends
            0 <= i < self.slots.len(),
            self.slots[i] is Some,
    {
        let e = self.slots[i]->0;
        CacheState {
            slots: self.slots.update(
                i,
                Some(CacheEntry { in_use: true, last_used: self.frame as u64, ..e }),
            ),
            ..self
        }
    }

    /// The pool after a newly created texture was put into slot `i` and handed out.
    pub open spec fn placed(
        self,
        i: int,
        descriptor: TextureDescriptor,
        texture: GpuTexture,
        view: GpuView,
    ) -> CacheState
        recommends
            self.first_vacant(i),
    {
        let e = CacheEntry {
            descriptor,
            texture,
            view,
            last_used: self.frame as u64,
            in_use: true,
        };
        CacheState {
            slots: if i == self.slots.len() {
                self.slots.push(Some(e))
            } else {
                self.slots.update(i, Some(e))
            },
            ..self
        }
    }

    /// A request for `descriptor` was served from the pool: the handle is that of
    /// the lowest free match, and `after` differs only in that entry.
    pub open spec fn hit(
        self,
        descriptor: TextureDescriptor,
        handle: CachedTexture,
        after: CacheState,
    ) -> bool {
        &&& self.first_free(descriptor, handle.slot as int)
        &&& handle.texture == self.slots[handle.slot as int]->0.texture
        &&& handle.view == self.slots[handle.slot as int]->0.view
        &&& after == self.taken(handle.slot as int)
    }

    /// A request for `descriptor` was served by a newly created texture, which then
    /// went into the lowest empty slot.
    pub open spec fn miss(
        self,
        descriptor: TextureDescriptor,
        handle: CachedTexture,
        after: CacheState,
    ) -> bool {
        &&& !self.has_free(descriptor)
        &&& self.first_vacant(handle.slot as int)
        &&& after == self.placed(handle.slot as int, descriptor, handle.texture, handle.view)
    }

    /// The pool after `handle` was given back in the current frame: its entry is
    /// free again and counts as used in this frame. A handle that the pool does
    /// not hold changes nothing.
    pub open spec fn released(self, handle: CachedTexture) -> CacheState {
        if self.holds(handle) {
            let e = self.slots[handle.slot as int]->0;
            CacheState {
                slots: self.slots.update(
                    handle.slot as int,
                    Some(CacheEntry { in_use: false, last_used: self.frame as u64, ..e }),
                ),
                ..self
            }
        } else {
            self
        }
    }

    /// In frame `now` the slot's texture is free and was last used more than
    /// `threshold` frames ago.
    pub open spec fn stale(self, slot: Option<CacheEntry>, now: int) -> bool {
        &&& slot matches Some(e)
        &&& !e.in_use
        &&& now - e.last_used > self.threshold
    }

    /// The pool after the frame ended: the counter has advanced by one and every
    /// texture that is stale in the new frame is gone.
    pub open spec fn ended(self) -> CacheState {
        CacheState {
            slots: Seq::new(
                self.slots.len(),
                |i: int|
                    if self.stale(self.slots[i], self.frame + 1) {
                        None
                    } else {
                        self.slots[i]
                    },
            ),
            frame: self.frame + 1,
            ..self
        }
    }

    /// The textures of the first `n` slots that the end of the frame destroys, in slot order.
    pub open spec fn evicted_upto(self, n: int) -> Seq<GpuTexture>
        decreases n,
    {
        if n <= 0 {
            Seq::empty()
        } else if self.stale(self.slots[n - 1], self.frame + 1) {
            self.evicted_upto(n - 1).push(self.slots[n - 1]->0.texture)
        } else {
            self.evicted_upto(n - 1)
        }
    }

    /// The textures that the end of the frame destroys, in slot order.
    pub open spec fn evicted(self) -> Seq<GpuTexture> {
        self.evicted_upto(self.slots.len() as int)
    }

    /// The pool after `n` frames ended with nothing acquired or released in between.
    pub open spec fn after_frames(self, n: nat) -> CacheState
        decreases n,
    {
        if n == 0 {
            self
        } else {
            self.after_frames((n - 1) as nat).ended()
        }
    }

    /// Number of textures in the first `n` slots.
    pub open spec fn occupied_upto(self, n: int) -> nat
        decreases n,
    {
        if n <= 0 {
            0
        } else if self.slots[n - 1] is Some {
            self.occupied_upto(n - 1) + 1
        } else {
            self.occupied_upto(n - 1)
        }
    }

    /// Number of textures in the pool, free or in use.
    pub open spec fn occupied(self) -> nat {
        self.occupied_upto(self.slots.len() as int)
    }
}

/// The texture pool. It alone owns the pooled textures.
#[derive(Debug)]
pub struct TextureCache {
    slots: Vec<Option<CacheEntry>>,
    frame: u64,
    threshold: u64,
}

impl View for TextureCache {
    type V = CacheState;

    closed spec fn view(&self) -> CacheState {
        CacheState {
            slots: self.slots@,
            frame: self.frame as int,
            threshold: self.threshold as int,
        }
    }
}

impl TextureCache {
    /// An empty pool at frame 0 that keeps a released texture for `threshold` frames.
    pub fn new(threshold: u64) -> (r: TextureCache)
        ensures
            r@ == (CacheState { slots: Seq::empty(), frame: 0, threshold: threshold as int }),
    {
        TextureCache { slots: Vec::new(), frame: 0, threshold }
    }

    /// The state of every pool is valid.
    pub proof fn lemma_valid(&self)
        ensures
            self@.valid(),
    {
    }

    /// The current frame.
    pub fn frame(&self) -> (r: u64)
        ensures
            r == self@.frame,
    {
        self.frame
    }

    /// Frames a released texture is kept.
    pub fn threshold(&self) -> (r: u64)
        ensures
            r == self@.threshold,
    {
        self.threshold
    }

    /// Number of slots, empty ones included.
    pub fn slot_count(&self) -> (r: usize)
        ensures
            r == self@.slots.len(),
    {
        self.slots.len()
    }

    /// The entry in `slot`, if there is one.
    pub fn entry(&self, slot: usize) -> (r: Option<CacheEntry>)
        ensures
            r == if slot < self@.slots.len() {
                self@.slots[slot as int]
            } else {
                None
            },
    {
        if slot < self.slots.len() {
            self.slots[slot]
        } else {
            None
        }
    }

    /// Number of textures in the pool, free or in use.
    pub fn entry_count(&self) -> (r: usize)
        ensures
            r == self@.occupied(),
    {
        let mut count: usize = 0;
        let mut i: usize = 0;
        while i < self.slots.len()
            invariant
                i <= self.slots.len(),
                count == self@.occupied_upto(i as int),
                count <= i,
            decreases self.slots.len() - i,
        {
            if self.slots[i].is_some() {
                count = count + 1;
            }
            i = i + 1;
        }
        count
    }

    /// Hands out the lowest free texture of exactly this descriptor, if the pool
    /// has one, and marks it as in use and as used in the current frame.
    pub fn take_free(&mut self, descriptor: &TextureDescriptor) -> (r: Option<CachedTexture>)
        ensures
            r is Some <==> old(self)@.has_free(*descriptor),
            r matches Some(handle) ==> old(self)@.hit(*descriptor, handle, final(self)@),
            r is None ==> final(self)@ == old(self)@,
    {
        let mut i: usize = 0;
        while i < self.slots.len()
            invariant
                i <= self.slots.len(),
                *self == *old(self),
                forall|j: int| 0 <= j < i ==> !self@.free_at(*descriptor, j),
            decreases self.slots.len() - i,
        {
            if let Some(e) = self.slots[i] {
                if !e.in_use && e.descriptor == *descriptor {
                    assert(self@.free_at(*descriptor, i as int));
                    self.slots[i] = Some(
                        CacheEntry {
                            descriptor: e.descriptor,
                            texture: e.texture,
                            view: e.view,
                            last_used: self.frame,
                            in_use: true,
                        },
                    );
                    return Some(CachedTexture { slot: i, texture: e.texture, view: e.view });
                }
            }
            i = i + 1;
        }
        None
    }

    /// Puts a newly created texture into the lowest empty slot and hands it out.
    pub fn adopt(&mut self, descriptor: &TextureDescriptor, texture: GpuTexture, view: GpuView) -> (r:
        CachedTexture)
        ensures
            old(self)@.first_vacant(r.slot as int),
            r.texture == texture,
            r.view == view,
            final(self)@ == old(self)@.placed(r.slot as int, *descriptor, texture, view),
    {
        let entry = CacheEntry {
            descriptor: *descriptor,
            texture,
            view,
            last_used: self.frame,
            in_use: true,
        };
        let mut i: usize = 0;
        while i < self.slots.len()
            invariant
                i <= self.slots.len(),
                *self == *old(self),
                entry == (CacheEntry {
                    descriptor: *descriptor,
                    texture,
                    view,
                    last_used: self.frame,
                    in_use: true,
                }),
                forall|j: int| 0 <= j < i ==> self@.slots[j] is Some,
            decreases self.slots.len() - i,
        {
            if self.slots[i].is_none() {
                self.slots[i] = Some(entry);
                return CachedTexture { slot: i, texture, view };
            }
            i = i + 1;
        }
        self.slots.push(Some(entry));
        CachedTexture { slot: i, texture, view }
    }

    /// Hands out a texture of exactly this descriptor. A free pooled texture is
    /// reused without a word to the device. Only when there is none is the device
    /// asked for a new texture and a view of it; if the device refuses, its error
    /// is returned and the pool is as it was.
    ///
    /// The last clause tells what was asked of the device: a sequence of calls
    /// with their answers, made one after the other from the device's state at
    /// entry to its state at exit, for which `acquired` holds.
    pub fn acquire<D: GpuDevice>(&mut self, device: &mut D, descriptor: &TextureDescriptor) -> (r:
        Result<CachedTexture, DeviceError>)
        ensures
            old(self)@.has_free(*descriptor) ==> r is Ok && *final(device) == *old(device),
            r matches Ok(handle) ==> old(self)@.granted(*descriptor, handle, final(self)@),
            r is Err ==> final(self)@ == old(self)@,
            exists|devices: Seq<D>, calls: Seq<DeviceCall>|
                {
                    &&& devices.len() == calls.len() + 1
                    &&& devices[0] == *old(device)
                    &&& devices[calls.len() as int] == *final(device)
                    &&& forall|i: int|
                        0 <= i < calls.len() && #[trigger] at(i) ==> exists|m: &mut D|
                            *m == devices[i] && *final(m) == devices[i + 1] && answered(
                                m,
                                calls[i],
                            )
                    &&& old(self)@.acquired(*descriptor, calls, r, final(self)@)
                },
    {
        let ghost start = *device;
        if let Some(handle) = self.take_free(descriptor) {
            assert(old(self)@.acquired(
                *descriptor,
                Seq::<DeviceCall>::empty(),
                Ok(handle),
                self@,
            ));
            assert(seq![start][0] == start);
            return Ok(handle);
        }
        let answer = device.create_texture(descriptor);
        let ghost asked = *device;
        match answer {
            Ok(texture) => {
                let all = ViewDescriptor::whole(descriptor);
                let view = device.create_view(texture, &all);
                let ghost viewed = *device;
                let handle = self.adopt(descriptor, texture, view);
                proof {
                    let devices = seq![start, asked, viewed];
                    let calls = seq![
                        DeviceCall::CreateTexture { wanted: *descriptor, created: answer },
                        DeviceCall::CreateView { of: texture, levels: all, view },
                    ];
                    assert(exists|m: &mut D|
                        *m == start && *final(m) == asked && #[trigger] answered(m, calls[0])) by {
                        let first = choose|m: &mut D|
                            *m == start && *final(m) == asked && #[trigger] call_ensures(
                                D::create_texture,
                                (m, descriptor),
                                answer,
                            );
                        assert(answered(first, calls[0]));
                    }
                    assert(exists|m: &mut D|
                        *m == asked && *final(m) == viewed && #[trigger] answered(m, calls[1])) by {
                        let second = choose|m: &mut D|
                            *m == asked && *final(m) == viewed && #[trigger] call_ensures(
                                D::create_view,
                                (m, texture, &all),
                                view,
                            );
                        assert(answered(second, calls[1]));
                    }
                    assert(devices[0] == start && devices[1] == asked && devices[2] == viewed);
                    assert(devices.len() == calls.len() + 1);
                    assert(old(self)@.acquired(*descriptor, calls, Ok(handle), self@));
                }
                Ok(handle)
            },
            Err(e) => {
                proof {
                    let devices = seq![start, asked];
                    let calls = seq![
                        DeviceCall::CreateTexture { wanted: *descriptor, created: answer },
                    ];
                    assert(exists|m: &mut D|
                        *m == start && *final(m) == asked && #[trigger] answered(m, calls[0])) by {
                        let first = choose|m: &mut D|
                            *m == start && *final(m) == asked && #[trigger] call_ensures(
                                D::create_texture,
                                (m, descriptor),
                                answer,
                            );
                        assert(answered(first, calls[0]));
                    }
                    assert(devices[0] == start && devices[1] == asked);
                    assert(devices.len() == calls.len() + 1);
                    assert(old(self)@.acquired(*descriptor, calls, Err(e), self@));
                }
                Err(e)
            },
        }
    }

    /// Takes a handle back. The texture stays in the pool, free for the next
    /// request with its descriptor, and counts as used in the current frame.
    /// Returns whether the pool held the handle; if not, nothing changes.
    pub fn release(&mut self, handle: &CachedTexture) -> (r: bool)
        ensures
            r == old(self)@.holds(*handle),
            final(self)@ == old(self)@.released(*handle),
    {
        if handle.slot < self.slots.len() {
            if let Some(e) = self.slots[handle.slot] {
                if e.in_use && e.texture == handle.texture && e.view == handle.view {
                    self.slots[handle.slot] = Some(
                        CacheEntry {
                            descriptor: e.descriptor,
                            texture: e.texture,
                            view: e.view,
                            last_used: self.frame,
                            in_use: false,
                        },
                    );
                    return true;
                }
            }
        }
        false
    }

    /// Ends the frame: advances the frame counter and removes every free texture
    /// that was last used more than `threshold` frames before the new frame.
    /// Returns the removed textures, which the caller destroys on the device.
    pub fn end_frame(&mut self) -> (r: Vec<GpuTexture>)
        requires
            old(self)@.frame < u64::MAX,
        ensures
            final(self)@ == old(self)@.ended(),
            r@ == old(self)@.evicted(),
    {
        let now: u64 = self.frame + 1;
        let mut gone: Vec<GpuTexture> = Vec::new();
        let mut i: usize = 0;
        while i < self.slots.len()
            invariant
                i <= self.slots.len(),
                self.slots@.len() == old(self)@.slots.len(),
                self.frame == old(self).frame,
                self.threshold == old(self).threshold,
                now == old(self)@.frame + 1,
                gone@ == old(self)@.evicted_upto(i as int),
                forall|j: int| 0 <= j < i ==> self.slots@[j] == old(self)@.ended().slots[j],
                forall|j: int| i <= j < self.slots@.len() ==> self.slots@[j] == old(self)@.slots[j],
            decreases self.slots.len() - i,
        {
            if let Some(e) = self.slots[i] {
                if !e.in_use && now > e.last_used && now - e.last_used > self.threshold {
                    gone.push(e.texture);
                    self.slots[i] = None;
                }
            }
            i = i + 1;
        }
        self.frame = now;
        assert(self@.slots =~= old(self)@.ended().slots);
        gone
    }
}

impl CacheState {
    /// What `acquire` does, given the calls it made to the device and their
    /// answers. Where the pool has a free match, the device is not asked and the
    /// lowest free match is handed out. Otherwise the device is asked for a
    /// texture of exactly this descriptor. If it refuses, that was the only call,
    /// its error is the result and the pool stays as it was. If it answers with
    /// a texture, it is asked for a view of the whole texture, and texture and
    /// view go into the lowest empty slot and are handed out.
    pub open spec fn acquired(
        self,
        descriptor: TextureDescriptor,
        calls: Seq<DeviceCall>,
        r: Result<CachedTexture, DeviceError>,
        after: CacheState,
    ) -> bool {
        if self.has_free(descriptor) {
            &&& calls.len() == 0
            &&& r matches Ok(handle)
            &&& self.hit(descriptor, handle, after)
        } else {
            &&& calls.len() >= 1
            &&& calls[0] matches DeviceCall::CreateTexture { wanted, created }
            &&& wanted == descriptor
            &&& match created {
                Err(e) => calls.len() == 1 && r == Err::<CachedTexture, DeviceError>(e) && after
                    == self,
                Ok(texture) => {
                    &&& calls.len() == 2
                    &&& calls[1] matches DeviceCall::CreateView { of, levels, view }
                    &&& of == texture
                    &&& levels == whole_view(descriptor)
                    &&& r matches Ok(handle)
                    &&& handle.texture == texture
                    &&& handle.view == view
                    &&& self.miss(descriptor, handle, after)
                },
            }
        }
    }

    /// What a successful `acquire` did: it served the request from the pool where
    /// the pool had a free match, and from a new texture only where it had none.
    pub open spec fn granted(
        self,
        descriptor: TextureDescriptor,
        handle: CachedTexture,
        after: CacheState,
    ) -> bool {
        if self.has_free(descriptor) {
            self.hit(descriptor, handle, after)
        } else {
            self.miss(descriptor, handle, after)
        }
    }
}

/// Overwriting an occupied slot with another entry leaves the number of textures as it was.
proof fn lemma_occupied_update(c: CacheState, i: int, e: CacheEntry, n: int)
    requires
        0 <= i < c.slots.len(),
        c.slots[i] is Some,
        0 <= n <= c.slots.len(),
    ensures
        (CacheState { slots: c.slots.update(i, Some(e)), ..c }).occupied_upto(n) == c.occupied_upto(
            n,
        ),
    decreases n,
{
    if n > 0 {
        lemma_occupied_update(c, i, e, n - 1);
    }
}

/// Acquire, release, acquire: a texture that was handed out and given back is
/// found again. The next request for the same descriptor, with no frame ended in
/// between, is served from the pool: it is a hit, and the pool has neither a new
/// slot nor a new texture.
pub proof fn lemma_released_texture_is_reused(
    before: CacheState,
    descriptor: TextureDescriptor,
    first: CachedTexture,
    held: CacheState,
    second: CachedTexture,
    after: CacheState,
)
    requires
        before.valid(),
        before.granted(descriptor, first, held),
        held.released(first).granted(descriptor, second, after),
    ensures
        held.holds(first),
        held.released(first).has_free(descriptor),
        held.released(first).hit(descriptor, second, after),
        after.slots.len() == held.slots.len(),
        after.occupied() == held.occupied(),
{
    let back = held.released(first);
    let s = first.slot as int;
    assert(held.holds(first));
    assert(back.free_at(descriptor, s));
    let t = second.slot as int;
    lemma_occupied_update(
        held,
        s,
        CacheEntry { in_use: false, last_used: held.frame as u64, ..held.slots[s]->0 },
        held.slots.len() as int,
    );
    lemma_occupied_update(
        back,
        t,
        CacheEntry { in_use: true, last_used: back.frame as u64, ..back.slots[t]->0 },
        back.slots.len() as int,
    );
}

/// The grace window. After a texture is given back and `n` frames end with
/// nothing acquired in between, its entry is still pooled, free and unchanged,
/// exactly when `n` is at most the eviction threshold: the frame end number
/// `threshold + 1` destroys it, and none before does. Until then a request for
/// its descriptor finds it.
pub proof fn lemma_eviction_window(held: CacheState, handle: CachedTexture, n: nat)
    requires
        held.valid(),
        held.holds(handle),
    ensures
        ({
            let back = held.released(handle);
            let later = back.after_frames(n);
            &&& later.frame == held.frame + n
            &&& later.threshold == held.threshold
            &&& later.slots.len() == held.slots.len()
            &&& n <= held.threshold ==> later.slots[handle.slot as int] == back.slots[handle.slot as int]
            &&& n <= held.threshold ==> later.free_at(
                held.slots[handle.slot as int]->0.descriptor,
                handle.slot as int,
            )
            &&& n > held.threshold ==> later.slots[handle.slot as int] is None
        }),
    decreases n,
{
    if n > 0 {
        lemma_eviction_window(held, handle, (n - 1) as nat);
    }
}

/// The frame end that destroys a released texture reports it: at the frame end
/// number `threshold + 1` after the release, the texture is among the evicted.
pub proof fn lemma_eviction_reports_texture(held: CacheState, handle: CachedTexture)
    requires
        held.valid(),
        held.holds(handle),
    ensures
        held.released(handle).after_frames(held.threshold as nat).evicted().contains(
            handle.texture,
        ),
{
    let last = held.released(handle).after_frames(held.threshold as nat);
    lemma_eviction_window(held, handle, held.threshold as nat);
    lemma_evicted_contains(last, handle.slot as int, last.slots.len() as int);
}

/// A stale slot's texture is among the evicted of every prefix that covers the slot.
proof fn lemma_evicted_contains(c: CacheState, i: int, n: int)
    requires
        0 <= i < n <= c.slots.len(),
        c.stale(c.slots[i], c.frame + 1),
    ensures
        c.evicted_upto(n).contains(c.slots[i]->0.texture),
    decreases n,
{
    if i == n - 1 {
        let prev = c.evicted_upto(n - 1);
        assert(c.evicted_upto(n) == prev.push(c.slots[i]->0.texture));
        assert(c.evicted_upto(n)[prev.len() as int] == c.slots[i]->0.texture);
    } else {
        lemma_evicted_contains(c, i, n - 1);
        let prev = c.evicted_upto(n - 1);
        let k = choose|k: int| 0 <= k < prev.len() && prev[k] == c.slots[i]->0.texture;
        if c.stale(c.slots[n - 1], c.frame + 1) {
            assert(c.evicted_upto(n)[k] == prev[k]);
        }
    }
}

/// Frame ends only remove: after any number of them each slot holds what it
/// held, or nothing.
proof fn lemma_frames_only_remove(c: CacheState, n: nat)
    ensures
        c.after_frames(n).slots.len() == c.slots.len(),
        forall|i: int|
            0 <= i < c.slots.len() ==> (#[trigger] c.after_frames(n).slots[i]) == c.slots[i]
                || c.after_frames(n).slots[i] is None,
    decreases n,
{
    if n > 0 {
        lemma_frames_only_remove(c, (n - 1) as nat);
    }
}

/// After the grace window the released texture is missed. If no other slot
/// held a free texture of its descriptor, then after more than `threshold`
/// frame ends the pool has no free texture of that descriptor, so the next
/// request for it asks the device for a new texture.
pub proof fn lemma_evicted_texture_is_missed(held: CacheState, handle: CachedTexture, n: nat)
    requires
        held.valid(),
        held.holds(handle),
        n > held.threshold,
        forall|i: int|
            i != handle.slot ==> !held.free_at(held.slots[handle.slot as int]->0.descriptor, i),
    ensures
        !held.released(handle).after_frames(n).has_free(
            held.slots[handle.slot as int]->0.descriptor,
        ),
{
    let descriptor = held.slots[handle.slot as int]->0.descriptor;
    let back = held.released(handle);
    let later = back.after_frames(n);
    lemma_eviction_window(held, handle, n);
    lemma_frames_only_remove(back, n);
    assert forall|i: int| !later.free_at(descriptor, i) by {
        if 0 <= i < later.slots.len() && i != handle.slot {
            assert(later.slots[i] == back.slots[i] || later.slots[i] is None);
            assert(back.slots[i] == held.slots[i]);
            assert(!held.free_at(descriptor, i));
        }
    }
}

} // verus!

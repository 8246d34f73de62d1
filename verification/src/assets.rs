//! The application world's table of image assets: an arena of slots, each with a
//! generation counter, addressed by handles that stay safe to use after the
//! asset they named is gone.

use vstd::prelude::*;
use crate::image::{DecodeError, Image, ImageView};

verus! {

/// A reference to an asset that owns nothing. It names one generation of one
/// slot; two handles are equal exactly when both numbers agree.
#[derive(Clone, Copy, Debug, PartialEq, Eq, Hash, Structural)]
pub struct Handle {
    pub index: usize,
    pub generation: u64,
}

/// The handle under which the default image is stored: generation 0 of the
/// first slot.
pub open spec fn default_image_handle() -> Handle {
    Handle { index: 0, generation: 0 }
}

/// The handle under which the default image is stored.
pub fn default_handle() -> (r: Handle)
    ensures
        r == default_image_handle(),
{
    Handle { index: 0, generation: 0 }
}

/// Where the loading of an asset stands.
#[derive(Clone, Copy, Debug, PartialEq, Eq, Hash, Structural)]
pub enum LoadState {
    NotLoaded,
    Loading,
    Loaded,
    Failed,
}

/// What a slot holds, as a value.
pub enum SlotState {
    /// No asset; every handle to the slot is stale.
    Vacant,
    /// An asset whose bytes are still being fetched or decoded.
    Loading,
    /// A decoded image.
    Loaded(ImageView),
    /// An asset whose decoding failed, with the reason.
    Failed(DecodeError),
}

/// One slot of the table, as a value.
pub struct SlotView {
    /// The generation of the handle that names the slot's current asset.
    pub generation: u64,
    pub state: SlotState,
    /// Whether the image was stored or replaced since changes were last taken.
    pub changed: bool,
}

/// The table as a value.
pub struct AssetsView {
    pub slots: Seq<SlotView>,
    /// Handles whose assets were removed since changes were last taken, oldest first.
    pub removed: Seq<Handle>,
}

impl AssetsView {
    /// The table is that of a real arena: its slot indices fit a `usize`.
    pub open spec fn valid(self) -> bool {
        self.slots.len() <= usize::MAX
    }

    /// The handle names the asset that its slot holds now.
    pub open spec fn live(self, handle: Handle) -> bool {
        &&& handle.index < self.slots.len()
        &&& self.slots[handle.index as int].generation == handle.generation
        &&& self.slots[handle.index as int].state !is Vacant
    }

    /// The load state of the handle's asset; `NotLoaded` for a handle that names nothing.
    pub open spec fn load_state(self, handle: Handle) -> LoadState {
        if self.live(handle) {
            match self.slots[handle.index as int].state {
                SlotState::Vacant => LoadState::NotLoaded,
                SlotState::Loading => LoadState::Loading,
                SlotState::Loaded(_) => LoadState::Loaded,
                SlotState::Failed(_) => LoadState::Failed,
            }
        } else {
            LoadState::NotLoaded
        }
    }

    /// The image that the handle resolves to, if it resolves to one.
    pub open spec fn image(self, handle: Handle) -> Option<ImageView> {
        if self.live(handle) {
            match self.slots[handle.index as int].state {
                SlotState::Loaded(image) => Some(image),
                _ => None,
            }
        } else {
            None
        }
    }

    /// Why the handle's asset failed to load, if it did.
    pub open spec fn load_error(self, handle: Handle) -> Option<DecodeError> {
        if self.live(handle) {
            match self.slots[handle.index as int].state {
                SlotState::Failed(e) => Some(e),
                _ => None,
            }
        } else {
            None
        }
    }

    /// The table with its first slot in place. The first slot is kept for the
    /// default image: no new asset ever goes there. A table without slots gets
    /// an empty first slot of generation 0; any other table is as it is.
    pub open spec fn reserved(self) -> AssetsView {
        if self.slots.len() == 0 {
            AssetsView {
                slots: seq![
                    SlotView { generation: 0, state: SlotState::Vacant, changed: false },
                ],
                ..self
            }
        } else {
            self
        }
    }

    /// The table after `image` was stored as the default image: it is under the
    /// default handle, in the first slot, whatever that slot held. Nothing is
    /// marked as changed by it: the mark of a live default image stays.
    pub open spec fn with_default(self, image: ImageView) -> AssetsView {
        let table = self.reserved();
        AssetsView {
            slots: table.slots.update(
                0,
                SlotView {
                    generation: 0,
                    state: SlotState::Loaded(image),
                    changed: self.live(default_image_handle()) && self.slots[0].changed,
                },
            ),
            ..table
        }
    }

    /// Slot `i` is empty, its generation counter can still advance, and it is
    /// not the first slot.
    pub open spec fn reusable(self, i: int) -> bool {
        &&& 1 <= i < self.slots.len()
        &&& self.slots[i].state is Vacant
        &&& self.slots[i].generation < u64::MAX
    }

    /// The handle that the next new asset gets: the lowest reusable slot with its
    /// generation advanced by one, or a new slot at the end with generation 0.
    /// It is never in the first slot.
    pub open spec fn next_handle(self, handle: Handle) -> bool {
        &&& 1 <= handle.index <= self.slots.len()
        &&& forall|j: int| 0 <= j < handle.index ==> !self.reusable(j)
        &&& if handle.index < self.slots.len() {
            &&& self.reusable(handle.index as int)
            &&& handle.generation == self.slots[handle.index as int].generation + 1
        } else {
            handle.generation == 0
        }
    }

    /// The table with the handle's slot set to `state`, at the handle's generation.
    pub open spec fn with_slot(self, handle: Handle, state: SlotState, changed: bool) -> AssetsView
        recommends
            handle.index <= self.slots.len(),
    {
        let slot = SlotView { generation: handle.generation, state, changed };
        AssetsView {
            slots: if handle.index == self.slots.len() {
                self.slots.push(slot)
            } else {
                self.slots.update(handle.index as int, slot)
            },
            ..self
        }
    }

    /// The table after the handle's asset was removed, if the handle is live:
    /// the slot is empty and the handle is noted as removed.
    pub open spec fn without(self, handle: Handle) -> AssetsView {
        if self.live(handle) {
            AssetsView {
                slots: self.slots.update(
                    handle.index as int,
                    SlotView {
                        generation: handle.generation,
                        state: SlotState::Vacant,
                        changed: false,
                    },
                ),
                removed: self.removed.push(handle),
            }
        } else {
            self
        }
    }

    /// The handle of slot `i` at its current generation.
    pub open spec fn handle_of(self, i: int) -> Handle {
        Handle { index: i as usize, generation: self.slots[i].generation }
    }

    /// A `Store` for each of the first `n` slots whose image is loaded and marked
    /// as changed, in slot order.
    pub open spec fn stores_upto(self, n: int) -> Seq<ChangeView>
        decreases n,
    {
        if n <= 0 {
            Seq::empty()
        } else {
            let rest = self.stores_upto(n - 1);
            match self.slots[n - 1].state {
                SlotState::Loaded(image) if self.slots[n - 1].changed => rest.push(
                    ChangeView::Store { handle: self.handle_of(n - 1), image },
                ),
                _ => rest,
            }
        }
    }

    /// A `Remove` for each of the first `n` slots whose asset failed to load, in slot order.
    pub open spec fn failures_upto(self, n: int) -> Seq<ChangeView>
        decreases n,
    {
        if n <= 0 {
            Seq::empty()
        } else {
            let rest = self.failures_upto(n - 1);
            if self.slots[n - 1].state is Failed {
                rest.push(ChangeView::Remove { handle: self.handle_of(n - 1) })
            } else {
                rest
            }
        }
    }

    /// A `Remove` for each handle noted as removed, oldest first.
    pub open spec fn removals(self) -> Seq<ChangeView> {
        self.removed.map_values(|handle: Handle| ChangeView::Remove { handle })
    }

    /// What the render world has to apply, in order: first a `Remove` for every
    /// removed handle and for every asset that failed to load, then a `Store`
    /// for every loaded image that is new or changed.
    pub open spec fn changes(self) -> Seq<ChangeView> {
        self.removals() + self.failures_upto(self.slots.len() as int) + self.stores_upto(
            self.slots.len() as int,
        )
    }

    /// The table gives reason for `change`: a stored image is the image of a
    /// loaded slot that is marked as changed, under that slot's handle; a
    /// removed handle was noted as removed or is that of a slot whose asset
    /// failed to load.
    pub open spec fn announces(self, change: ChangeView) -> bool {
        match change {
            ChangeView::Store { handle, image } => exists|j: int|
                0 <= j < self.slots.len() && handle == #[trigger] self.handle_of(j)
                    && self.slots[j].state == SlotState::Loaded(image) && self.slots[j].changed,
            ChangeView::Remove { handle } => self.removed.contains(handle) || exists|j: int|
                0 <= j < self.slots.len() && handle == #[trigger] self.handle_of(j)
                    && self.slots[j].state is Failed,
        }
    }

    /// The table after its changes were taken: no slot is marked as changed and
    /// no removal is pending; the assets themselves are as they were.
    pub open spec fn settled(self) -> AssetsView {
        AssetsView {
            slots: Seq::new(
                self.slots.len(),
                |i: int| SlotView { changed: false, ..self.slots[i] },
            ),
            removed: Seq::empty(),
        }
    }
}

/// The state of a slot whose loading ended with `outcome`.
pub open spec fn loaded_or_failed(outcome: Result<Image, DecodeError>) -> SlotState {
    match outcome {
        Ok(image) => SlotState::Loaded(image@),
        Err(e) => SlotState::Failed(e),
    }
}

/// One change for the render world to apply, as a value.
pub enum ChangeView {
    /// The image under `handle` is new or has new content.
    Store { handle: Handle, image: ImageView },
    /// Nothing may stay resident for `handle`.
    Remove { handle: Handle },
}

/// One change on its way from the application world to the render world.
#[derive(Debug)]
pub enum Change {
    /// A copy of an image that is new or has new content.
    Store { handle: Handle, image: Image },
    /// Nothing may stay resident for `handle`.
    Remove { handle: Handle },
}

impl View for Change {
    type V = ChangeView;

    open spec fn view(&self) -> ChangeView {
        match *self {
            Change::Store { handle, image } => ChangeView::Store { handle, image: image@ },
            Change::Remove { handle } => ChangeView::Remove { handle },
        }
    }
}

/// The value of each change, in order.
pub open spec fn change_views(changes: Seq<Change>) -> Seq<ChangeView> {
    changes.map_values(|c: Change| c@)
}

#[derive(Debug)]
enum SlotContent {
    Vacant,
    Loading,
    Loaded(Image),
    Failed(DecodeError),
}

#[derive(Debug)]
struct AssetSlot {
    generation: u64,
    content: SlotContent,
    changed: bool,
}

impl AssetSlot {
    spec fn as_view(self) -> SlotView {
        SlotView {
            generation: self.generation,
            state: match self.content {
                SlotContent::Vacant => SlotState::Vacant,
                SlotContent::Loading => SlotState::Loading,
                SlotContent::Loaded(image) => SlotState::Loaded(image@),
                SlotContent::Failed(e) => SlotState::Failed(e),
            },
            changed: self.changed,
        }
    }
}

/// The table of image assets. It owns the images; handles only name them.
#[derive(Debug)]
pub struct AssetTable {
    slots: Vec<AssetSlot>,
    removed: Vec<Handle>,
}

impl View for AssetTable {
    type V = AssetsView;

    closed spec fn view(&self) -> AssetsView {
        AssetsView {
            slots: Seq::new(self.slots@.len(), |i: int| self.slots@[i].as_view()),
            removed: self.removed@,
        }
    }
}

impl AssetTable {
    /// An empty table.
    pub fn new() -> (r: AssetTable)
        ensures
            r@ == (AssetsView { slots: Seq::empty(), removed: Seq::empty() }),
    {
        let r = AssetTable { slots: Vec::new(), removed: Vec::new() };
        assert(r@.slots =~= Seq::empty());
        r
    }

    /// Whether the handle names the asset that its slot holds now.
    fn is_live(&self, handle: Handle) -> (r: bool)
        ensures
            r == self@.live(handle),
    {
        if handle.index < self.slots.len() {
            let slot = &self.slots[handle.index];
            slot.generation == handle.generation && !matches!(slot.content, SlotContent::Vacant)
        } else {
            false
        }
    }

    /// Puts the first slot in place if the table has no slot yet.
    fn reserve(&mut self)
        ensures
            final(self)@ == old(self)@.reserved(),
            final(self).slots@.len() >= 1,
    {
        if self.slots.len() == 0 {
            self.slots.push(
                AssetSlot { generation: 0, content: SlotContent::Vacant, changed: false },
            );
            assert(self@.slots =~= old(self)@.reserved().slots);
        }
    }

    /// Stores `content` in the lowest reusable slot, or in a new one at the end.
    fn allocate(&mut self, content: SlotContent, changed: bool) -> (handle: Handle)
        ensures
            old(self)@.reserved().next_handle(handle),
            final(self)@ == old(self)@.reserved().with_slot(
                handle,
                (AssetSlot { generation: 0, content, changed }).as_view().state,
                changed,
            ),
    {
        self.reserve();
        let ghost start = self@;
        let mut i: usize = 1;
        while i < self.slots.len()
            invariant
                1 <= i <= self.slots.len(),
                self@ == start,
                start == old(self)@.reserved(),
                forall|j: int| 0 <= j < i ==> !self@.reusable(j),
            decreases self.slots.len() - i,
        {
            let generation = self.slots[i].generation;
            if generation < u64::MAX && matches!(self.slots[i].content, SlotContent::Vacant) {
                assert(self@.reusable(i as int));
                let handle = Handle { index: i, generation: generation + 1 };
                self.slots[i] = AssetSlot { generation: generation + 1, content, changed };
                assert(self@.slots =~= start.with_slot(
                    handle,
                    (AssetSlot { generation: 0, content, changed }).as_view().state,
                    changed,
                ).slots);
                return handle;
            }
            i = i + 1;
        }
        let handle = Handle { index: i, generation: 0 };
        self.slots.push(AssetSlot { generation: 0, content, changed });
        assert(self@.slots =~= start.with_slot(
            handle,
            (AssetSlot { generation: 0, content, changed }).as_view().state,
            changed,
        ).slots);
        handle
    }

    /// Registers an asset whose bytes are still on their way and returns its
    /// handle, which is never the default handle.
    pub fn begin_load(&mut self) -> (handle: Handle)
        ensures
            old(self)@.reserved().next_handle(handle),
            final(self)@ == old(self)@.reserved().with_slot(handle, SlotState::Loading, false),
            handle != default_image_handle(),
    {
        self.allocate(SlotContent::Loading, false)
    }

    /// Stores a decoded image as a new asset, marked as changed, and returns its
    /// handle, which is never the default handle.
    pub fn add(&mut self, image: Image) -> (handle: Handle)
        ensures
            old(self)@.reserved().next_handle(handle),
            final(self)@ == old(self)@.reserved().with_slot(
                handle,
                SlotState::Loaded(image@),
                true,
            ),
            handle != default_image_handle(),
    {
        self.allocate(SlotContent::Loaded(image), true)
    }

    /// Stores `image` as the default image, under the default handle, without
    /// marking anything as changed. Whatever the first slot held is replaced.
    pub fn set_default_image(&mut self, image: Image)
        ensures
            final(self)@ == old(self)@.with_default(image@),
            final(self)@.image(default_image_handle()) == Some(image@),
    {
        let changed = self.is_live(default_handle()) && self.slots[0].changed;
        self.reserve();
        let ghost state = SlotState::Loaded(image@);
        self.slots[0] = AssetSlot { generation: 0, content: SlotContent::Loaded(image), changed };
        assert(self@.slots =~= old(self)@.with_default(image@).slots);
    }

    /// Records how the loading of an asset ended. It applies only to a live
    /// handle whose asset is loading: the asset becomes loaded, with the image
    /// marked as changed, or failed, with the error kept. Returns whether it
    /// applied; if not, nothing changes.
    pub fn finish_load(&mut self, handle: Handle, outcome: Result<Image, DecodeError>) -> (r: bool)
        ensures
            r == (old(self)@.load_state(handle) == LoadState::Loading),
            r ==> final(self)@ == old(self)@.with_slot(
                handle,
                loaded_or_failed(outcome),
                outcome is Ok,
            ),
            !r ==> final(self)@ == old(self)@,
    {
        if !self.is_live(handle) {
            return false;
        }
        if !matches!(self.slots[handle.index].content, SlotContent::Loading) {
            return false;
        }
        let ghost state = loaded_or_failed(outcome);
        let changed = outcome.is_ok();
        let content = match outcome {
            Ok(image) => SlotContent::Loaded(image),
            Err(e) => SlotContent::Failed(e),
        };
        self.slots[handle.index] = AssetSlot { generation: handle.generation, content, changed };
        assert(self@.slots =~= old(self)@.with_slot(handle, state, changed).slots);
        true
    }

    /// Replaces the asset of a live handle by `image`, marked as changed.
    /// Returns whether the handle was live; if not, nothing changes.
    pub fn set(&mut self, handle: Handle, image: Image) -> (r: bool)
        ensures
            r == old(self)@.live(handle),
            r ==> final(self)@ == old(self)@.with_slot(handle, SlotState::Loaded(image@), true),
            !r ==> final(self)@ == old(self)@,
    {
        if !self.is_live(handle) {
            return false;
        }
        let ghost state = SlotState::Loaded(image@);
        self.slots[handle.index] = AssetSlot {
            generation: handle.generation,
            content: SlotContent::Loaded(image),
            changed: true,
        };
        assert(self@.slots =~= old(self)@.with_slot(handle, state, true).slots);
        true
    }

    /// Stores `image` under a given handle without marking anything as changed.
    /// It applies to a live handle, whose change mark stays as it is, and to the
    /// handle of generation 0 for the slot one past the end, which it creates.
    /// Returns whether it applied; if not, nothing changes.
    pub fn set_untracked(&mut self, handle: Handle, image: Image) -> (r: bool)
        ensures
            r == (old(self)@.live(handle) || (handle.index == old(self)@.slots.len()
                && handle.generation == 0)),
            r ==> final(self)@ == old(self)@.with_slot(
                handle,
                SlotState::Loaded(image@),
                old(self)@.live(handle) && old(self)@.slots[handle.index as int].changed,
            ),
            !r ==> final(self)@ == old(self)@,
    {
        let ghost state = SlotState::Loaded(image@);
        if self.is_live(handle) {
            let changed = self.slots[handle.index].changed;
            self.slots[handle.index] = AssetSlot {
                generation: handle.generation,
                content: SlotContent::Loaded(image),
                changed,
            };
            assert(self@.slots =~= old(self)@.with_slot(handle, state, changed).slots);
            true
        } else if handle.index == self.slots.len() && handle.generation == 0 {
            self.slots.push(
                AssetSlot { generation: 0, content: SlotContent::Loaded(image), changed: false },
            );
            assert(self@.slots =~= old(self)@.with_slot(handle, state, false).slots);
            true
        } else {
            false
        }
    }

    /// Removes the asset of a live handle and notes the handle as removed. The
    /// handle, and every copy of it, resolves to nothing from then on. Returns
    /// the image if the asset was loaded.
    pub fn remove(&mut self, handle: Handle) -> (r: Option<Image>)
        ensures
            final(self)@ == old(self)@.without(handle),
            r is Some <==> old(self)@.image(handle) is Some,
            r matches Some(image) ==> Some(image@) == old(self)@.image(handle),
    {
        if !self.is_live(handle) {
            return None;
        }
        let mut slot = AssetSlot {
            generation: handle.generation,
            content: SlotContent::Vacant,
            changed: false,
        };
        core::mem::swap(&mut self.slots[handle.index], &mut slot);
        self.removed.push(handle);
        assert(self@.slots =~= old(self)@.without(handle).slots);
        match slot.content {
            SlotContent::Loaded(image) => Some(image),
            _ => None,
        }
    }

    /// The image that the handle resolves to. A stale handle, and a handle whose
    /// asset is not loaded, resolve to nothing.
    pub fn get(&self, handle: Handle) -> (r: Option<&Image>)
        ensures
            r is Some <==> self@.image(handle) is Some,
            r matches Some(image) ==> Some(image@) == self@.image(handle),
    {
        if !self.is_live(handle) {
            return None;
        }
        match &self.slots[handle.index].content {
            SlotContent::Loaded(image) => Some(image),
            _ => None,
        }
    }

    /// The load state of the handle's asset; `NotLoaded` for a handle that names nothing.
    pub fn load_state(&self, handle: Handle) -> (r: LoadState)
        ensures
            r == self@.load_state(handle),
    {
        if !self.is_live(handle) {
            return LoadState::NotLoaded;
        }
        match &self.slots[handle.index].content {
            SlotContent::Vacant => LoadState::NotLoaded,
            SlotContent::Loading => LoadState::Loading,
            SlotContent::Loaded(_) => LoadState::Loaded,
            SlotContent::Failed(_) => LoadState::Failed,
        }
    }

    /// Why the handle's asset failed to load, if it did.
    pub fn load_error(&self, handle: Handle) -> (r: Option<DecodeError>)
        ensures
            r == self@.load_error(handle),
    {
        if !self.is_live(handle) {
            return None;
        }
        match &self.slots[handle.index].content {
            SlotContent::Failed(e) => Some(*e),
            _ => None,
        }
    }

    /// Takes what changed since the last call, for the render world to apply in
    /// order: first the removal of every handle that was removed and of every
    /// asset that failed to load, then a copy of every loaded image that is
    /// marked as changed. Afterwards nothing is marked as changed and no removal
    /// is pending.
    pub fn take_changes(&mut self) -> (r: Vec<Change>)
        ensures
            change_views(r@) == old(self)@.changes(),
            final(self)@ == old(self)@.settled(),
    {
        let mut removals: Vec<Change> = Vec::new();
        let mut stores: Vec<Change> = Vec::new();
        let mut k: usize = 0;
        while k < self.removed.len()
            invariant
                k <= self.removed.len(),
                *self == *old(self),
                change_views(removals@) == old(self)@.removals().take(k as int),
            decreases self.removed.len() - k,
        {
            let ghost before = removals@;
            let handle = self.removed[k];
            removals.push(Change::Remove { handle });
            assert(change_views(removals@) =~= change_views(before).push(
                ChangeView::Remove { handle },
            ));
            assert(old(self)@.removals().take(k + 1) =~= old(self)@.removals().take(k as int).push(
                ChangeView::Remove { handle },
            ));
            k = k + 1;
        }
        assert(old(self)@.removals().take(k as int) =~= old(self)@.removals());
        self.removed.clear();
        assert(change_views(stores@) =~= old(self)@.stores_upto(0));
        let mut i: usize = 0;
        while i < self.slots.len()
            invariant
                i <= self.slots.len(),
                self.slots@.len() == old(self).slots@.len(),
                self.removed@ == Seq::<Handle>::empty(),
                change_views(stores@) == old(self)@.stores_upto(i as int),
                change_views(removals@) == old(self)@.removals() + old(self)@.failures_upto(
                    i as int,
                ),
                forall|j: int|
                    0 <= j < i ==> self.slots@[j].as_view() == (SlotView {
                        changed: false,
                        ..old(self).slots@[j].as_view()
                    }),
                forall|j: int| i <= j < self.slots@.len() ==> self.slots@[j] == old(self).slots@[j],
            decreases self.slots.len() - i,
        {
            let handle = Handle { index: i, generation: self.slots[i].generation };
            let ghost stored = stores@;
            let ghost gone = removals@;
            match &self.slots[i].content {
                SlotContent::Loaded(image) => {
                    if self.slots[i].changed {
                        stores.push(Change::Store { handle, image: image.clone() });
                        assert(change_views(stores@) =~= change_views(stored).push(
                            ChangeView::Store { handle, image: image@ },
                        ));
                    }
                },
                SlotContent::Failed(_) => {
                    removals.push(Change::Remove { handle });
                    assert(change_views(removals@) =~= change_views(gone).push(
                        ChangeView::Remove { handle },
                    ));
                    assert(change_views(removals@) =~= old(self)@.removals()
                        + old(self)@.failures_upto(i as int).push(ChangeView::Remove { handle }));
                },
                _ => {},
            }
            self.slots[i].changed = false;
            i = i + 1;
        }
        assert(self@.slots =~= old(self)@.settled().slots);
        let ghost first = removals@;
        let ghost second = stores@;
        removals.append(&mut stores);
        assert(change_views(removals@) =~= change_views(first) + change_views(second));
        removals
    }
}

impl AssetTable {
    /// The state of every table is valid.
    pub proof fn lemma_valid(&self)
        ensures
            self@.valid(),
    {
        assert(self.slots@.len() == self.slots.len());
    }
}

impl AssetsView {
    /// What `stores_upto` holds: only stores, one for each loaded and changed
    /// slot below `n` and for no other.
    pub proof fn lemma_stores_upto(self, n: int)
        requires
            0 <= n <= self.slots.len(),
        ensures
            forall|k: int|
                0 <= k < self.stores_upto(n).len() ==> {
                    let c = #[trigger] self.stores_upto(n)[k];
                    &&& c is Store
                    &&& exists|j: int|
                        0 <= j < n && c->Store_handle == #[trigger] self.handle_of(j)
                            && self.slots[j].state == SlotState::Loaded(c->Store_image)
                            && self.slots[j].changed
                },
            forall|j: int|
                0 <= j < n && (#[trigger] self.slots[j]).state is Loaded && self.slots[j].changed
                    ==> self.stores_upto(n).contains(
                    ChangeView::Store {
                        handle: self.handle_of(j),
                        image: self.slots[j].state->Loaded_0,
                    },
                ),
        decreases n,
    {
        if n > 0 {
            self.lemma_stores_upto(n - 1);
            let rest = self.stores_upto(n - 1);
            let all = self.stores_upto(n);
            assert forall|k: int| 0 <= k < all.len() implies {
                let c = #[trigger] all[k];
                &&& c is Store
                &&& exists|j: int|
                    0 <= j < n && c->Store_handle == #[trigger] self.handle_of(j)
                        && self.slots[j].state == SlotState::Loaded(c->Store_image)
                        && self.slots[j].changed
            } by {
                let c = all[k];
                if k < rest.len() {
                    assert(c == rest[k]);
                    let j = choose|j: int|
                        0 <= j < n - 1 && c->Store_handle == #[trigger] self.handle_of(j)
                            && self.slots[j].state == SlotState::Loaded(c->Store_image)
                            && self.slots[j].changed;
                    assert(c->Store_handle == self.handle_of(j));
                } else {
                    assert(c->Store_handle == self.handle_of(n - 1));
                }
            };
            assert forall|j: int|
                0 <= j < n && (#[trigger] self.slots[j]).state is Loaded && self.slots[j].changed
                implies all.contains(
                ChangeView::Store {
                    handle: self.handle_of(j),
                    image: self.slots[j].state->Loaded_0,
                },
            ) by {
                let c = ChangeView::Store {
                    handle: self.handle_of(j),
                    image: self.slots[j].state->Loaded_0,
                };
                if j < n - 1 {
                    let k = choose|k: int| 0 <= k < rest.len() && rest[k] == c;
                    assert(all[k] == c);
                } else {
                    assert(all[rest.len() as int] == c);
                }
            };
        }
    }

    /// What `failures_upto` holds: only removals, one for each slot below `n`
    /// whose asset failed to load and for no other.
    pub proof fn lemma_failures_upto(self, n: int)
        requires
            0 <= n <= self.slots.len(),
        ensures
            forall|k: int|
                0 <= k < self.failures_upto(n).len() ==> {
                    let c = #[trigger] self.failures_upto(n)[k];
                    &&& c is Remove
                    &&& exists|j: int|
                        0 <= j < n && c->Remove_handle == #[trigger] self.handle_of(j)
                            && self.slots[j].state is Failed
                },
            forall|j: int|
                0 <= j < n && (#[trigger] self.slots[j]).state is Failed
                    ==> self.failures_upto(n).contains(
                    ChangeView::Remove { handle: self.handle_of(j) },
                ),
        decreases n,
    {
        if n > 0 {
            self.lemma_failures_upto(n - 1);
            let rest = self.failures_upto(n - 1);
            let all = self.failures_upto(n);
            assert forall|k: int| 0 <= k < all.len() implies {
                let c = #[trigger] all[k];
                &&& c is Remove
                &&& exists|j: int|
                    0 <= j < n && c->Remove_handle == #[trigger] self.handle_of(j)
                        && self.slots[j].state is Failed
            } by {
                let c = all[k];
                if k < rest.len() {
                    assert(c == rest[k]);
                    let j = choose|j: int|
                        0 <= j < n - 1 && c->Remove_handle == #[trigger] self.handle_of(j)
                            && self.slots[j].state is Failed;
                    assert(c->Remove_handle == self.handle_of(j));
                } else {
                    assert(c->Remove_handle == self.handle_of(n - 1));
                }
            };
            assert forall|j: int| 0 <= j < n && (#[trigger] self.slots[j]).state is Failed implies all.contains(
                ChangeView::Remove { handle: self.handle_of(j) },
            ) by {
                let c = ChangeView::Remove { handle: self.handle_of(j) };
                if j < n - 1 {
                    let k = choose|k: int| 0 <= k < rest.len() && rest[k] == c;
                    assert(all[k] == c);
                } else {
                    assert(all[rest.len() as int] == c);
                }
            };
        }
    }

    /// Extraction is exact. The changes hold nothing that the table gives no
    /// reason for, and every removal comes before every store.
    pub proof fn lemma_changes_sound(self)
        ensures
            forall|p: int|
                0 <= p < self.changes().len() ==> self.announces(#[trigger] self.changes()[p]),
            forall|p: int, q: int|
                0 <= p < self.changes().len() && 0 <= q < self.changes().len() && (
                #[trigger] self.changes()[p]) is Store && (#[trigger] self.changes()[q]) is Remove
                    ==> q < p,
    {
        let n = self.slots.len() as int;
        let a = self.removals();
        let b = self.failures_upto(n);
        let c = self.stores_upto(n);
        self.lemma_failures_upto(n);
        self.lemma_stores_upto(n);
        assert forall|p: int| 0 <= p < self.changes().len() implies self.announces(
            #[trigger] self.changes()[p],
        ) by {
            let change = self.changes()[p];
            if p < a.len() {
                assert(change == a[p]);
                assert(self.removed[p] == change->Remove_handle);
            } else if p < a.len() + b.len() {
                assert(change == b[p - a.len()]);
            } else {
                assert(change == c[p - a.len() - b.len()]);
            }
        };
        assert forall|p: int, q: int|
            0 <= p < self.changes().len() && 0 <= q < self.changes().len() && (
            #[trigger] self.changes()[p]) is Store && (#[trigger] self.changes()[q]) is Remove
            implies q < p by {
            if p < a.len() {
                assert(self.changes()[p] == a[p]);
            } else if p < a.len() + b.len() {
                assert(self.changes()[p] == b[p - a.len()]);
            }
            if q >= a.len() + b.len() {
                assert(self.changes()[q] == c[q - a.len() - b.len()]);
            }
        };
    }

    /// Extraction is total. Every loaded image that is marked as changed is
    /// stored, every handle noted as removed is removed, and so is the handle of
    /// every asset that failed to load.
    pub proof fn lemma_changes_complete(self)
        ensures
            forall|j: int|
                0 <= j < self.slots.len() && (#[trigger] self.slots[j]).state is Loaded
                    && self.slots[j].changed ==> self.changes().contains(
                    ChangeView::Store {
                        handle: self.handle_of(j),
                        image: self.slots[j].state->Loaded_0,
                    },
                ),
            forall|j: int|
                0 <= j < self.slots.len() && (#[trigger] self.slots[j]).state is Failed
                    ==> self.changes().contains(ChangeView::Remove { handle: self.handle_of(j) }),
            forall|k: int|
                0 <= k < self.removed.len() ==> self.changes().contains(
                    ChangeView::Remove { handle: #[trigger] self.removed[k] },
                ),
    {
        let n = self.slots.len() as int;
        let a = self.removals();
        let b = self.failures_upto(n);
        let c = self.stores_upto(n);
        self.lemma_failures_upto(n);
        self.lemma_stores_upto(n);
        assert forall|j: int|
            0 <= j < self.slots.len() && (#[trigger] self.slots[j]).state is Loaded
                && self.slots[j].changed implies self.changes().contains(
            ChangeView::Store { handle: self.handle_of(j), image: self.slots[j].state->Loaded_0 },
        ) by {
            let change = ChangeView::Store {
                handle: self.handle_of(j),
                image: self.slots[j].state->Loaded_0,
            };
            let k = choose|k: int| 0 <= k < c.len() && c[k] == change;
            assert(self.changes()[a.len() + b.len() + k] == change);
        };
        assert forall|j: int|
            0 <= j < self.slots.len() && (#[trigger] self.slots[j]).state is Failed implies self.changes().contains(
            ChangeView::Remove { handle: self.handle_of(j) },
        ) by {
            let change = ChangeView::Remove { handle: self.handle_of(j) };
            let k = choose|k: int| 0 <= k < b.len() && b[k] == change;
            assert(self.changes()[a.len() + k] == change);
        };
        assert forall|k: int| 0 <= k < self.removed.len() implies self.changes().contains(
            ChangeView::Remove { handle: #[trigger] self.removed[k] },
        ) by {
            assert(self.changes()[k] == a[k]);
        };
    }
}

impl AssetsView {
    /// The handle's asset is gone for good: its slot is empty at the handle's
    /// generation, or has moved on to a later generation.
    pub open spec fn retired(self, handle: Handle) -> bool {
        &&& handle.index < self.slots.len()
        &&& self.slots[handle.index as int].generation >= handle.generation
        &&& self.slots[handle.index as int].generation == handle.generation
            ==> self.slots[handle.index as int].state is Vacant
    }

    /// Removing a live handle retires it, and a retired handle resolves to
    /// nothing: it is not live, has no image, and counts as not loaded.
    pub proof fn lemma_removed_is_retired(self, handle: Handle)
        requires
            self.live(handle),
        ensures
            self.without(handle).retired(handle),
            !self.without(handle).live(handle),
            self.without(handle).image(handle) is None,
            self.without(handle).load_state(handle) == LoadState::NotLoaded,
    {
    }

    /// A retired handle resolves to nothing.
    pub proof fn lemma_retired_resolves_to_nothing(self, handle: Handle)
        requires
            self.retired(handle),
        ensures
            !self.live(handle),
            self.image(handle) is None,
            self.load_state(handle) == LoadState::NotLoaded,
            self.load_error(handle) is None,
    {
    }

    /// A retired handle stays retired, whatever happens to the table: storing
    /// under the next new handle, under a live handle or in a new slot at the
    /// end, removing a handle, and taking the changes all leave it retired; so
    /// does storing the default image, for every handle outside the first slot. So a handle never resolves to
    /// an asset that came into its slot after the handle's own asset was
    /// removed.
    pub proof fn lemma_retired_stays_retired(
        self,
        handle: Handle,
        other: Handle,
        state: SlotState,
        changed: bool,
    )
        requires
            self.retired(handle),
        ensures
            self.next_handle(other) || self.live(other) || other.index == self.slots.len()
                ==> self.with_slot(other, state, changed).retired(handle),
            self.without(other).retired(handle),
            self.settled().retired(handle),
            forall|image: ImageView|
                handle.index != 0 ==> (#[trigger] self.with_default(image)).retired(handle),
    {
    }
}

} // verus!

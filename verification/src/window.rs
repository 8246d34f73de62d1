//! Windows as the image pipeline sees them, and the window systems: when to
//! exit, which windows to close, and when a window's icon is ready to be set.

use vstd::prelude::*;
use bevy_input::keyboard::KeyCode;
use bevy_input::Input;
use crate::assets::{AssetTable, AssetsView, Handle};
use crate::image::{Image, ImageView};
use crate::keyboard::{escape_just_pressed, just_pressed_keys, KEY_ESCAPE};

verus! {

/// The identity of a window.
#[derive(Clone, Copy, Debug, PartialEq, Eq, Hash, Structural)]
pub struct WindowId {
    pub id: u64,
}

/// The user asked for a window to be closed.
#[derive(Clone, Copy, Debug, PartialEq, Eq, Structural)]
pub struct WindowCloseRequested {
    pub id: WindowId,
}

/// A window gained or lost the focus.
#[derive(Clone, Copy, Debug, PartialEq, Eq, Structural)]
pub struct WindowFocused {
    pub id: WindowId,
    pub focused: bool,
}

/// A command for the windowing backend, as a value.
pub enum CommandView {
    Close,
    SetIcon { icon: ImageView },
}

/// A command that a window hands to the windowing backend.
#[derive(Debug)]
pub enum WindowCommand {
    Close,
    SetIcon { icon: Image },
}

impl View for WindowCommand {
    type V = CommandView;

    open spec fn view(&self) -> CommandView {
        match *self {
            WindowCommand::Close => CommandView::Close,
            WindowCommand::SetIcon { icon } => CommandView::SetIcon { icon: icon@ },
        }
    }
}

/// A window, as a value.
pub struct WindowView {
    pub id: WindowId,
    pub icon: Option<Handle>,
    pub is_icon_set: bool,
    pub commands: Seq<CommandView>,
}

impl WindowView {
    /// The window with `n` more `Close` commands at the end of its queue.
    pub open spec fn closed_times(self, n: nat) -> WindowView {
        WindowView { commands: self.commands + Seq::new(n, |i: int| CommandView::Close), ..self }
    }

    /// The window after its icon was looked up in `images`: if no icon command
    /// was issued yet and the icon's handle resolves to an image, the window has
    /// a `SetIcon` command with that image and counts its icon as set.
    pub open spec fn with_icon_from(self, images: AssetsView) -> WindowView {
        if !self.is_icon_set && self.icon is Some && images.image(self.icon->0) is Some {
            WindowView {
                commands: self.commands.push(
                    CommandView::SetIcon { icon: images.image(self.icon->0)->0 },
                ),
                is_icon_set: true,
                ..self
            }
        } else {
            self
        }
    }
}

/// A window: its identity, the image it wants as icon, and the commands that
/// wait for the windowing backend.
#[derive(Debug)]
pub struct Window {
    id: WindowId,
    icon: Option<Handle>,
    is_icon_set: bool,
    command_queue: Vec<WindowCommand>,
}

impl View for Window {
    type V = WindowView;

    closed spec fn view(&self) -> WindowView {
        WindowView {
            id: self.id,
            icon: self.icon,
            is_icon_set: self.is_icon_set,
            commands: self.command_queue@.map_values(|c: WindowCommand| c@),
        }
    }
}

impl Window {
    /// A window without icon and without commands.
    pub fn new(id: WindowId) -> (r: Window)
        ensures
            r@ == (WindowView { id, icon: None, is_icon_set: false, commands: Seq::empty() }),
    {
        let r = Window { id, icon: None, is_icon_set: false, command_queue: Vec::new() };
        assert(r@.commands =~= Seq::empty());
        r
    }

    /// The window's identity.
    pub fn id(&self) -> (r: WindowId)
        ensures
            r == self@.id,
    {
        self.id
    }

    /// The handle of the image that the window wants as icon.
    pub fn icon(&self) -> (r: Option<Handle>)
        ensures
            r == self@.icon,
    {
        self.icon
    }

    /// Whether the command that sets the current icon was issued.
    pub fn is_icon_set(&self) -> (r: bool)
        ensures
            r == self@.is_icon_set,
    {
        self.is_icon_set
    }

    /// The commands that wait for the windowing backend, oldest first.
    pub fn commands(&self) -> (r: &Vec<WindowCommand>)
        ensures
            r@.map_values(|c: WindowCommand| c@) == self@.commands,
    {
        &self.command_queue
    }

    /// Chooses the image that the window wants as icon. The command that sets
    /// it is issued once the image is loaded.
    pub fn set_icon(&mut self, icon: Option<Handle>)
        ensures
            final(self)@ == (WindowView { icon, is_icon_set: false, ..old(self)@ }),
    {
        self.icon = icon;
        self.is_icon_set = false;
    }

    /// Asks the windowing backend to close the window.
    pub fn close(&mut self)
        ensures
            final(self)@ == old(self)@.closed_times(1),
    {
        self.command_queue.push(WindowCommand::Close);
        assert(self@.commands =~= old(self)@.closed_times(1).commands);
    }

    /// Issues the icon command if the icon is not set yet and its image is loaded.
    fn update_icon(&mut self, images: &AssetTable)
        ensures
            final(self)@ == old(self)@.with_icon_from(images@),
    {
        if !self.is_icon_set {
            if let Some(handle) = self.icon {
                if let Some(image) = images.get(handle) {
                    self.command_queue.push(WindowCommand::SetIcon { icon: image.clone() });
                    self.is_icon_set = true;
                    assert(self@.commands =~= old(self)@.with_icon_from(images@).commands);
                }
            }
        }
    }
}

/// Number of requests among the first `n` that ask for window `id` to be closed.
pub open spec fn requests_for(events: Seq<WindowCloseRequested>, id: WindowId, n: int) -> nat
    decreases n,
{
    if n <= 0 {
        0
    } else if events[n - 1].id == id {
        requests_for(events, id, n - 1) + 1
    } else {
        requests_for(events, id, n - 1)
    }
}

/// The focused window after the focus events were seen: the last event
/// decides, and without events the focus is as it was.
pub open spec fn focus_after(focused: Option<WindowId>, events: Seq<WindowFocused>) -> Option<
    WindowId,
> {
    if events.len() == 0 {
        focused
    } else if events.last().focused {
        Some(events.last().id)
    } else {
        None
    }
}

/// The windows after every window with identity `id` was asked to close.
pub open spec fn closed(windows: Seq<WindowView>, id: WindowId) -> Seq<WindowView> {
    Seq::new(
        windows.len(),
        |i: int|
            if windows[i].id == id {
                windows[i].closed_times(1)
            } else {
                windows[i]
            },
    )
}

/// No two windows have the same identity.
pub open spec fn distinct(windows: Seq<WindowView>) -> bool {
    forall|i: int, j: int|
        0 <= i < j < windows.len() ==> (#[trigger] windows[i]).id != (#[trigger] windows[j]).id
}

/// The windows after `window` was added: it takes the place of the window with
/// its identity, if there is one, and else goes to the end.
pub open spec fn added(windows: Seq<WindowView>, window: WindowView) -> Seq<WindowView> {
    if exists|i: int| 0 <= i < windows.len() && windows[i].id == window.id {
        let i = choose|i: int| 0 <= i < windows.len() && windows[i].id == window.id;
        windows.update(i, window)
    } else {
        windows.push(window)
    }
}

/// The open windows. No two of them have the same identity.
#[derive(Debug)]
pub struct Windows {
    windows: Vec<Window>,
}

impl View for Windows {
    type V = Seq<WindowView>;

    closed spec fn view(&self) -> Seq<WindowView> {
        self.windows@.map_values(|w: Window| w@)
    }
}

impl Windows {
    #[verifier::type_invariant]
    spec fn well_formed(self) -> bool {
        distinct(self@)
    }

    /// No windows.
    pub fn new() -> (r: Windows)
        ensures
            r@ == Seq::<WindowView>::empty(),
    {
        let r = Windows { windows: Vec::new() };
        assert(r@ =~= Seq::<WindowView>::empty());
        r
    }

    /// Number of windows. No two of them have the same identity.
    pub fn len(&self) -> (r: usize)
        ensures
            r == self@.len(),
            distinct(self@),
    {
        proof {
            use_type_invariant(self);
        }
        self.windows.len()
    }

    /// Adds a window. A window with the same identity is replaced by it;
    /// without one, the new window goes to the end.
    pub fn add(&mut self, window: Window)
        ensures
            final(self)@ == added(old(self)@, window@),
            distinct(old(self)@),
            distinct(final(self)@),
    {
        proof {
            use_type_invariant(&*self);
        }
        let mut i: usize = 0;
        while i < self.windows.len()
            invariant
                i <= self.windows.len(),
                *self == *old(self),
                distinct(self@),
                forall|j: int| 0 <= j < i ==> self@[j].id != window@.id,
            decreases self.windows.len() - i,
        {
            if self.windows[i].id == window.id {
                assert(self@[i as int].id == window@.id);
                let mut windows = Vec::new();
                core::mem::swap(&mut self.windows, &mut windows);
                windows[i] = window;
                assert(windows@.map_values(|w: Window| w@) =~= added(old(self)@, window@)) by {
                    let k = choose|k: int|
                        0 <= k < old(self)@.len() && old(self)@[k].id == window@.id;
                    assert(k == i);
                }
                assert(distinct(windows@.map_values(|w: Window| w@)));
                self.windows = windows;
                return ;
            }
            i = i + 1;
        }
        let mut windows = Vec::new();
        core::mem::swap(&mut self.windows, &mut windows);
        windows.push(window);
        assert(windows@.map_values(|w: Window| w@) =~= added(old(self)@, window@));
        assert(distinct(windows@.map_values(|w: Window| w@)));
        self.windows = windows;
    }

    /// The window at position `index`.
    pub fn at(&self, index: usize) -> (r: Option<&Window>)
        ensures
            r is Some <==> index < self@.len(),
            r matches Some(window) ==> window@ == self@[index as int],
    {
        if index < self.windows.len() {
            Some(&self.windows[index])
        } else {
            None
        }
    }

    /// The window with identity `id`, if there is one.
    pub fn get(&self, id: WindowId) -> (r: Option<&Window>)
        ensures
            r is Some <==> exists|i: int| 0 <= i < self@.len() && self@[i].id == id,
            r matches Some(window) ==> exists|i: int|
                0 <= i < self@.len() && self@[i] == window@ && window@.id == id && forall|j: int|
                    0 <= j < i ==> self@[j].id != id,
    {
        let mut i: usize = 0;
        while i < self.windows.len()
            invariant
                i <= self.windows.len(),
                forall|j: int| 0 <= j < i ==> self@[j].id != id,
            decreases self.windows.len() - i,
        {
            if self.windows[i].id == id {
                assert(self@[i as int] == self.windows[i as int]@);
                return Some(&self.windows[i]);
            }
            i = i + 1;
        }
        None
    }

    /// Asks the window with identity `id` to close. There is at most one.
    pub fn close(&mut self, id: WindowId)
        ensures
            final(self)@ == closed(old(self)@, id),
            distinct(old(self)@),
            distinct(final(self)@),
    {
        proof {
            use_type_invariant(&*self);
        }
        let mut windows: Vec<Window> = Vec::new();
        core::mem::swap(&mut self.windows, &mut windows);
        let ghost before = windows@;
        let mut i: usize = 0;
        while i < windows.len()
            invariant
                i <= windows.len(),
                windows@.len() == before.len(),
                before.map_values(|w: Window| w@) == old(self)@,
                forall|j: int|
                    0 <= j < i ==> (#[trigger] windows@[j])@ == closed(old(self)@, id)[j],
                forall|j: int| i <= j < windows@.len() ==> #[trigger] windows@[j] == before[j],
            decreases windows.len() - i,
        {
            if windows[i].id == id {
                windows[i].close();
            }
            i = i + 1;
        }
        assert(windows@.map_values(|w: Window| w@) =~= closed(old(self)@, id));
        assert(distinct(closed(old(self)@, id)));
        self.windows = windows;
    }

    /// Issues the icon command of every window whose icon is not set yet and
    /// whose icon image is loaded.
    fn update_icons(&mut self, images: &AssetTable)
        ensures
            final(self)@.len() == old(self)@.len(),
            forall|i: int|
                0 <= i < old(self)@.len() ==> #[trigger] final(self)@[i] == old(
                    self,
                )@[i].with_icon_from(images@),
            distinct(final(self)@),
    {
        proof {
            use_type_invariant(&*self);
        }
        let mut windows: Vec<Window> = Vec::new();
        core::mem::swap(&mut self.windows, &mut windows);
        let ghost before = windows@;
        let mut i: usize = 0;
        while i < windows.len()
            invariant
                i <= windows.len(),
                windows@.len() == before.len(),
                before.map_values(|w: Window| w@) == old(self)@,
                forall|j: int|
                    0 <= j < i ==> (#[trigger] windows@[j])@ == before[j]@.with_icon_from(
                        images@,
                    ),
                forall|j: int| i <= j < windows@.len() ==> #[trigger] windows@[j] == before[j],
            decreases windows.len() - i,
        {
            windows[i].update_icon(images);
            i = i + 1;
        }
        let ghost after = windows@.map_values(|w: Window| w@);
        assert forall|a: int, b: int| 0 <= a < b < after.len() implies (#[trigger] after[a]).id != (
        #[trigger] after[b]).id by {
            assert(old(self)@[a].id != old(self)@[b].id);
            assert(after[a] == old(self)@[a].with_icon_from(images@));
            assert(after[b] == old(self)@[b].with_icon_from(images@));
        }
        self.windows = windows;
    }
}

/// Closing a window by its identity changes at most one window: every window
/// of another identity stays as it is, and no two windows have the identity.
pub proof fn lemma_closed_one(windows: Seq<WindowView>, id: WindowId)
    requires
        distinct(windows),
    ensures
        distinct(closed(windows, id)),
        forall|i: int, j: int|
            0 <= i < j < windows.len() && closed(windows, id)[i] != windows[i] ==> closed(
                windows,
                id,
            )[j] == windows[j],
{
    assert forall|i: int, j: int|
        0 <= i < j < windows.len() && closed(windows, id)[i] != windows[i] implies closed(
        windows,
        id,
    )[j] == windows[j] by {
        assert(windows[i].id == id);
        assert(windows[i].id != windows[j].id);
    }
}

/// Whether the application is to exit: it is when no window is open.
pub fn exit_on_all_closed(windows: &Windows) -> (exit: bool)
    ensures
        exit == (windows@.len() == 0),
{
    windows.len() == 0
}

/// Closes windows in response to close requests: every window gets one `Close`
/// command for each request that names it. Nothing else about a window changes.
pub fn close_when_requested(windows: &mut Windows, closed: &[WindowCloseRequested])
    ensures
        final(windows)@.len() == old(windows)@.len(),
        forall|i: int|
            0 <= i < old(windows)@.len() ==> #[trigger] final(windows)@[i] == old(
                windows,
            )@[i].closed_times(requests_for(closed@, old(windows)@[i].id, closed@.len() as int)),
        distinct(old(windows)@),
{
    proof {
        use_type_invariant(&*windows);
    }
    let mut k: usize = 0;
    assert forall|i: int| 0 <= i < windows@.len() implies #[trigger] windows@[i] == windows@[i].closed_times(
        0,
    ) by {
        assert(windows@[i].closed_times(0).commands =~= windows@[i].commands);
    };
    while k < closed.len()
        invariant
            k <= closed.len(),
            windows@.len() == old(windows)@.len(),
            forall|i: int|
                0 <= i < old(windows)@.len() ==> #[trigger] windows@[i] == old(
                    windows,
                )@[i].closed_times(requests_for(closed@, old(windows)@[i].id, k as int)),
        decreases closed.len() - k,
    {
        let ghost before = windows@;
        windows.close(closed[k].id);
        assert forall|i: int| 0 <= i < old(windows)@.len() implies #[trigger] windows@[i] == old(
            windows,
        )@[i].closed_times(requests_for(closed@, old(windows)@[i].id, k + 1)) by {
            let start = old(windows)@[i];
            let n = requests_for(closed@, start.id, k as int);
            assert(before[i] == start.closed_times(n));
            if start.id == closed@[k as int].id {
                assert(start.closed_times(n).closed_times(1).commands =~= start.closed_times(
                    n + 1,
                ).commands);
            }
        };
        k = k + 1;
    }
}

/// Closes the focused window when the escape key has just been pressed.
/// `focused` follows the focus events first: the last event decides which
/// window has the focus, if any. Then, if a window has the focus and escape
/// was just pressed, every window with that identity is asked to close.
pub fn close_on_esc(
    focused: &mut Option<WindowId>,
    focused_events: &[WindowFocused],
    windows: &mut Windows,
    input: &Input<KeyCode>,
)
    ensures
        *final(focused) == focus_after(*old(focused), focused_events@),
        final(windows)@ == if just_pressed_keys(*input).contains(KEY_ESCAPE) && (*final(focused))
            is Some {
            closed(old(windows)@, (*final(focused))->0)
        } else {
            old(windows)@
        },
        distinct(old(windows)@),
{
    proof {
        use_type_invariant(&*windows);
    }
    let mut k: usize = 0;
    while k < focused_events.len()
        invariant
            k <= focused_events.len(),
            *focused == focus_after(*old(focused), focused_events@.take(k as int)),
        decreases focused_events.len() - k,
    {
        let event = focused_events[k];
        *focused = if event.focused {
            Some(event.id)
        } else {
            None
        };
        assert(focused_events@.take(k + 1).last() == event);
        k = k + 1;
    }
    assert(focused_events@.take(k as int) =~= focused_events@);
    if let Some(id) = *focused {
        if escape_just_pressed(input) {
            windows.close(id);
        }
    }
}

/// Issues the icon command of every window whose icon is not set yet and
/// whose icon image is loaded: the window gets a `SetIcon` command with a copy
/// of the image and counts its icon as set. Other windows stay as they are.
pub fn set_icon_command(windows: &mut Windows, images: &AssetTable)
    ensures
        final(windows)@.len() == old(windows)@.len(),
        forall|i: int|
            0 <= i < old(windows)@.len() ==> #[trigger] final(windows)@[i] == old(
                windows,
            )@[i].with_icon_from(images@),
        distinct(final(windows)@),
{
    windows.update_icons(images);
}

} // verus!

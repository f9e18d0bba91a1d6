//! Snapshotting a subtree.
//!
//! Some effects are expensive per frame and cheap per pixel: a scale, a skew,
//! a blur. Applied to a complex subtree they cost a full repaint every frame;
//! applied to a **picture of that subtree** they cost one rasterisation and
//! then nothing. It is deliberately for **short** animations: a snapshot is
//! frozen, so anything animating inside the child stops.

use vstd::prelude::*;

verus! {

/// What to do when the child **cannot** be snapshotted, which is the case
/// when a platform view is composited by the engine rather than drawn into
/// the picture.
#[derive(Clone, Copy, Debug, PartialEq, Eq, Structural)]
pub enum SnapshotMode {
    /// Snapshot when possible, and paint the live child when not; the effect
    /// still runs, through the live paint.
    Permissive,
    /// **The default**, and it throws: silently not snapshotting means the
    /// expensive path runs and nobody finds out, which is exactly the bug the
    /// widget was added to prevent.
    Normal,
    /// Snapshot anyway and let the platform view fall out of the picture.
    Forced,
}

impl Default for SnapshotMode {
    fn default() -> (r: SnapshotMode)
        ensures
            r == SnapshotMode::Normal,
    {
        SnapshotMode::Normal
    }
}

/// The three answers to "there is a platform view in here".
#[derive(Clone, Copy, Debug, PartialEq, Eq, Structural)]
pub enum PlatformViewOutcome {
    PaintChildLive,
    Error,
    SnapshotWithoutIt,
}

/// What each mode does about a platform view.
pub open spec fn platform_view_outcome(mode: SnapshotMode) -> PlatformViewOutcome {
    match mode {
        SnapshotMode::Permissive => PlatformViewOutcome::PaintChildLive,
        SnapshotMode::Normal => PlatformViewOutcome::Error,
        SnapshotMode::Forced => PlatformViewOutcome::SnapshotWithoutIt,
    }
}

impl SnapshotMode {
    /// What happens when a platform view is found in the subtree.
    pub fn on_platform_view(self) -> (r: PlatformViewOutcome)
        ensures
            r == platform_view_outcome(self),
    {
        match self {
            SnapshotMode::Permissive => PlatformViewOutcome::PaintChildLive,
            SnapshotMode::Normal => PlatformViewOutcome::Error,
            SnapshotMode::Forced => PlatformViewOutcome::SnapshotWithoutIt,
        }
    }
}

/// The controller as the contracts see it.
pub struct ControllerView {
    pub allow_snapshotting: bool,
    pub notifications: usize,
}

/// The controller after the flag is set to `value`: listeners are told only
/// when it changed.
pub open spec fn with_allowed(c: ControllerView, value: bool) -> ControllerView {
    if value == c.allow_snapshotting {
        c
    } else {
        ControllerView { allow_snapshotting: value, notifications: (c.notifications + 1) as usize }
    }
}

/// The controller after a fresh snapshot was asked for: listeners are told,
/// whatever the flag says.
pub open spec fn cleared(c: ControllerView) -> ControllerView {
    ControllerView {
        allow_snapshotting: c.allow_snapshotting,
        notifications: (c.notifications + 1) as usize,
    }
}

/// Turning snapshotting on (or off) twice says nothing the second time.
pub proof fn lemma_setting_twice_is_setting_once(c: ControllerView, value: bool)
    ensures
        with_allowed(with_allowed(c, value), value) == with_allowed(c, value),
{
}

/// Setting the flag leaves it at the value set, and tells the listeners
/// once exactly when the value changed.
pub proof fn lemma_set_notifies_on_change(c: ControllerView, value: bool)
    requires
        c.notifications < usize::MAX,
    ensures
        with_allowed(c, value).allow_snapshotting == value,
        with_allowed(c, value).notifications == c.notifications + (if value != c.allow_snapshotting {
            1int
        } else {
            0int
        }),
{
}

/// Asking for a fresh snapshot always tells the listeners, whether or not
/// snapshotting is on, and asking twice tells them twice.
pub proof fn lemma_clear_always_notifies(c: ControllerView)
    requires
        c.notifications + 2 <= usize::MAX,
    ensures
        cleared(c).notifications == c.notifications + 1,
        cleared(cleared(c)).notifications == c.notifications + 2,
        cleared(c).allow_snapshotting == c.allow_snapshotting,
{
}

/// Whether snapshotting is allowed, and how many times listeners were told.
///
/// The asymmetry between its two operations is the point: allowing is a
/// **value** that notifies on change, and `clear` is an **event** that
/// notifies unconditionally. Turning snapshotting on twice should do nothing;
/// asking for a fresh snapshot twice should produce two, because the child
/// may have changed both times.
#[derive(Debug)]
pub struct SnapshotController {
    allow_snapshotting: bool,
    notifications: usize,
}

impl View for SnapshotController {
    type V = ControllerView;

    closed spec fn view(&self) -> ControllerView {
        ControllerView {
            allow_snapshotting: self.allow_snapshotting,
            notifications: self.notifications,
        }
    }
}

impl Default for SnapshotController {
    fn default() -> (r: SnapshotController)
        ensures
            r@ == (ControllerView { allow_snapshotting: false, notifications: 0 }),
    {
        SnapshotController { allow_snapshotting: false, notifications: 0 }
    }
}

impl SnapshotController {
    /// A controller; a widget that snapshotted from the moment it was built
    /// would freeze its child for the whole of its life, so callers pass
    /// `false` until the animation starts.
    pub fn new(allow_snapshotting: bool) -> (r: SnapshotController)
        ensures
            r@ == (ControllerView { allow_snapshotting, notifications: 0 }),
    {
        SnapshotController { allow_snapshotting, notifications: 0 }
    }

    pub fn allow_snapshotting(&self) -> (r: bool)
        ensures
            r == self@.allow_snapshotting,
    {
        self.allow_snapshotting
    }

    pub fn notifications(&self) -> (r: usize)
        ensures
            r == self@.notifications,
    {
        self.notifications
    }

    /// Sets the flag, telling listeners only when it changed.
    pub fn set_allow_snapshotting(&mut self, value: bool)
        requires
            value != old(self)@.allow_snapshotting ==> old(self)@.notifications < usize::MAX,
        ensures
            final(self)@ == with_allowed(old(self)@, value),
    {
        if value == self.allow_snapshotting {
            return;
        }
        self.allow_snapshotting = value;
        self.notifications = self.notifications + 1;
    }

    /// Asks for a fresh snapshot, telling listeners **unconditionally**: there
    /// is no value to compare, and the caller is saying the child changed. A
    /// listener that is not snapshotting has nothing to discard.
    pub fn clear(&mut self)
        requires
            old(self)@.notifications < usize::MAX,
        ensures
            final(self)@ == cleared(old(self)@),
    {
        self.notifications = self.notifications + 1;
    }
}

/// Draws the image where the child was, and paints the child unchanged when
/// it cannot.
#[derive(Clone, Copy, Debug, PartialEq, Eq, Structural)]
pub struct DefaultSnapshotPainter;

impl Default for DefaultSnapshotPainter {
    fn default() -> (r: DefaultSnapshotPainter)
        ensures
            r == DefaultSnapshotPainter,
    {
        DefaultSnapshotPainter
    }
}

impl DefaultSnapshotPainter {
    /// The default painter has no state, so nothing about it can change.
    pub fn should_repaint(&self, old: &DefaultSnapshotPainter) -> (r: bool)
        ensures
            !r,
    {
        false
    }
}

/// The snapshotting widget's configuration.
#[derive(Clone, Copy, Debug, PartialEq, Eq, Structural)]
pub struct SnapshotWidget {
    pub mode: SnapshotMode,
    /// False by default: a resize while snapshotting stretches the old
    /// picture rather than re-rasterising, which is right for the common
    /// case, a scale animation, where stretching **is** the effect.
    pub autoresize: bool,
}

impl Default for SnapshotWidget {
    fn default() -> (r: SnapshotWidget)
        ensures
            r == (SnapshotWidget { mode: SnapshotMode::Normal, autoresize: false }),
    {
        SnapshotWidget::new()
    }
}

/// Whether a frame paints from the snapshot: never while snapshotting is off;
/// always when there is no platform view; otherwise unless the mode falls
/// back to the live child.
pub open spec fn snapshot_frame(mode: SnapshotMode, allowed: bool, has_platform_view: bool) -> bool {
    allowed && (!has_platform_view || platform_view_outcome(mode)
        != PlatformViewOutcome::PaintChildLive)
}

impl SnapshotWidget {
    pub fn new() -> (r: SnapshotWidget)
        ensures
            r == (SnapshotWidget { mode: SnapshotMode::Normal, autoresize: false }),
    {
        SnapshotWidget { mode: SnapshotMode::Normal, autoresize: false }
    }

    pub fn with_mode(self, mode: SnapshotMode) -> (r: Self)
        ensures
            r == (SnapshotWidget { mode, ..self }),
    {
        SnapshotWidget { mode, ..self }
    }

    pub fn with_autoresize(self, autoresize: bool) -> (r: Self)
        ensures
            r == (SnapshotWidget { autoresize, ..self }),
    {
        SnapshotWidget { autoresize, ..self }
    }

    /// Whether a size change discards the snapshot.
    pub fn resize_invalidates_snapshot(&self) -> (r: bool)
        ensures
            r == self.autoresize,
    {
        self.autoresize
    }

    /// Which of the painter's two methods a frame uses.
    pub fn paints_from_snapshot(&self, controller: &SnapshotController, has_platform_view: bool) -> (r:
        bool)
        ensures
            r == snapshot_frame(self.mode, controller@.allow_snapshotting, has_platform_view),
    {
        if !controller.allow_snapshotting() {
            return false;
        }
        if !has_platform_view {
            return true;
        }
        self.mode.on_platform_view() != PlatformViewOutcome::PaintChildLive
    }
}

} // verus!

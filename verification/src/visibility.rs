//! Whether a window's presentation can be skipped: minimized, occluded, or shrunk to nothing.
//! Pure state; the windowing side only feeds it events and reacts to its transitions.
use vstd::prelude::*;

verus! {

/// A window's visibility, tracked from whichever signals the platform actually sends. A signal
/// the platform never reports stays at its default of "not hidden": a window we cannot see is
/// redrawn rather than a window we can see being frozen.
#[derive(Debug, Clone, Copy, Default, PartialEq, Eq)]
pub struct Visibility {
    pub occluded: bool,
    pub zero_sized: bool,
    pub minimized: bool,
}

/// A signal the platform sends about a window, as the setters below take it.
pub enum VisibilityEvent {
    /// `set_occluded`.
    Occluded(bool),
    /// `set_size`, with the new surface's width and height.
    Resized(u32, u32),
    /// `set_minimized`.
    Minimized(Option<bool>),
}

impl Visibility {
    /// The state of a window that nothing hides, as `new` makes it.
    pub open spec fn fresh() -> Visibility {
        Visibility { occluded: false, zero_sized: false, minimized: false }
    }

    /// The state after the setter for `event` has run.
    pub open spec fn after(self, event: VisibilityEvent) -> Visibility {
        match event {
            VisibilityEvent::Occluded(o) => Visibility { occluded: o, ..self },
            VisibilityEvent::Resized(w, h) => Visibility { zero_sized: w == 0 || h == 0, ..self },
            VisibilityEvent::Minimized(m) => Visibility { minimized: m == Some(true), ..self },
        }
    }

    /// The state of a new window after `events`, in order.
    pub open spec fn replayed(events: Seq<VisibilityEvent>) -> Visibility
        decreases events.len(),
    {
        if events.len() == 0 {
            Visibility::fresh()
        } else {
            Visibility::replayed(events.drop_last()).after(events.last())
        }
    }

    /// Whether any suspending flag is set.
    pub open spec fn suspended(self) -> bool {
        self.occluded || self.zero_sized || self.minimized
    }

    /// Whether going from `before` to `self` lifted the last suspending flag.
    pub open spec fn restored_from(self, before: Visibility) -> bool {
        before.suspended() && !self.suspended()
    }

    /// A fresh window: nothing hides it.
    pub fn new() -> (v: Self)
        ensures
            v == Visibility::fresh(),
            !v.occluded,
            !v.zero_sized,
            !v.minimized,
    {
        Visibility { occluded: false, zero_sized: false, minimized: false }
    }

    /// True when presentation should be skipped: nothing would be shown.
    pub fn is_suspended(&self) -> (b: bool)
        ensures
            b == self.suspended(),
    {
        self.occluded || self.zero_sized || self.minimized
    }

    /// Updates the occlusion flag. Returns true when the window just stopped being suspended,
    /// so the caller should request a fresh frame.
    pub fn set_occluded(&mut self, occluded: bool) -> (restored: bool)
        ensures
            *final(self) == (Visibility { occluded, ..*old(self) }),
            *final(self) == old(self).after(VisibilityEvent::Occluded(occluded)),
            restored == final(self).restored_from(*old(self)),
    {
        let was_suspended = self.is_suspended();
        self.occluded = occluded;
        was_suspended && !self.is_suspended()
    }

    /// Updates the zero-size flag from a new surface size. Returns true on the same restored
    /// transition as `set_occluded`.
    pub fn set_size(&mut self, width: u32, height: u32) -> (restored: bool)
        ensures
            *final(self) == (Visibility { zero_sized: width == 0 || height == 0, ..*old(self) }),
            *final(self) == old(self).after(VisibilityEvent::Resized(width, height)),
            restored == final(self).restored_from(*old(self)),
    {
        let was_suspended = self.is_suspended();
        self.zero_sized = width == 0 || height == 0;
        was_suspended && !self.is_suspended()
    }

    /// Updates the minimized flag; `None` (the platform does not report it) reads as "not
    /// minimized", per the conservative default.
    pub fn set_minimized(&mut self, minimized: Option<bool>) -> (restored: bool)
        ensures
            *final(self) == (Visibility {
                minimized: match minimized {
                    Some(m) => m,
                    None => false,
                },
                ..*old(self)
            }),
            *final(self) == old(self).after(VisibilityEvent::Minimized(minimized)),
            restored == final(self).restored_from(*old(self)),
    {
        let was_suspended = self.is_suspended();
        self.minimized = match minimized {
            Some(m) => m,
            None => false,
        };
        was_suspended && !self.is_suspended()
    }
}

/// A restore is reported only on the transition out of suspension, and only once every
/// suspending flag is clear.
pub proof fn lemma_restored_means_every_flag_clear(before: Visibility, after: Visibility)
    ensures
        after.restored_from(before) ==> before.suspended() && !after.occluded && !after.zero_sized
            && !after.minimized,
        !before.suspended() ==> !after.restored_from(before),
{
}

/// The value the last `Occluded` event of `events` gave, `false` when there is none.
pub open spec fn last_occlusion(events: Seq<VisibilityEvent>) -> bool
    decreases events.len(),
{
    if events.len() == 0 {
        false
    } else {
        match events.last() {
            VisibilityEvent::Occluded(o) => o,
            _ => last_occlusion(events.drop_last()),
        }
    }
}

/// Whether the last `Resized` event of `events` had a zero side, `false` when there is none.
pub open spec fn last_size_zero(events: Seq<VisibilityEvent>) -> bool
    decreases events.len(),
{
    if events.len() == 0 {
        false
    } else {
        match events.last() {
            VisibilityEvent::Resized(w, h) => w == 0 || h == 0,
            _ => last_size_zero(events.drop_last()),
        }
    }
}

/// Whether the last `Minimized` event of `events` said minimized (`None` reads as not), `false`
/// when there is none.
pub open spec fn last_minimized(events: Seq<VisibilityEvent>) -> bool
    decreases events.len(),
{
    if events.len() == 0 {
        false
    } else {
        match events.last() {
            VisibilityEvent::Minimized(m) => m == Some(true),
            _ => last_minimized(events.drop_last()),
        }
    }
}

/// A window is suspended exactly when the last values given to the three setters say so: the
/// last occlusion, the last size having a zero side, or the last minimized report; a signal
/// never given counts as not hiding the window, so a fresh window is not suspended.
pub proof fn lemma_suspended_follows_the_last_signals(events: Seq<VisibilityEvent>)
    ensures
        Visibility::replayed(events).occluded == last_occlusion(events),
        Visibility::replayed(events).zero_sized == last_size_zero(events),
        Visibility::replayed(events).minimized == last_minimized(events),
        Visibility::replayed(events).suspended() == (last_occlusion(events) || last_size_zero(events)
            || last_minimized(events)),
    decreases events.len(),
{
    if events.len() > 0 {
        lemma_suspended_follows_the_last_signals(events.drop_last());
    }
}

} // verus!

//! When the layout is re-read and when a panel is drawn.
//!
//! The host does the reading and the drawing; what is kept here is what it
//! needs to know to decide whether to. Times are nanoseconds on the host's
//! own clock.

use vstd::prelude::*;

use crate::flock::{refresh_interval, BUSY_REFRESH, IDLE_REFRESH};

verus! {

/// What is known of how fresh the window layout is.
#[derive(Clone, Copy, Debug, PartialEq, Eq, Structural)]
pub struct Layout {
    /// The compositor has said something: the layout may have moved.
    pub dirty: bool,
    /// When it was last read.
    pub last_refresh: u64,
    /// When a window last actually moved. Events alone are a poor signal that
    /// a drag is in progress, so how busy the desktop is goes by the geometry
    /// really changing.
    pub last_change: u64,
}

/// How long ago `t` was; nothing at all where it is still to come.
#[verifier::allow_in_spec]
pub fn since(t: u64, now: u64) -> u64
    returns
        (if now < t {
            0u64
        } else {
            (now - t) as u64
        }),
{
    if now < t {
        0
    } else {
        now - t
    }
}

impl Layout {
    /// A layout read, and taken to have moved, just now.
    pub fn new(now: u64) -> (r: Layout)
        ensures
            r == (Layout { dirty: false, last_refresh: now, last_change: now }),
    {
        Layout { dirty: false, last_refresh: now, last_change: now }
    }

    /// How long a reading lasts.
    #[verifier::allow_in_spec]
    pub fn interval(&self, now: u64) -> u64
        returns
            refresh_interval(self.dirty, since(self.last_change, now)),
    {
        refresh_interval(self.dirty, since(self.last_change, now))
    }

    /// Is the layout to be read again?
    #[verifier::allow_in_spec]
    pub fn due(&self, now: u64) -> bool
        returns
            since(self.last_refresh, now) >= self.interval(now),
    {
        since(self.last_refresh, now) >= self.interval(now)
    }

    /// When the layout is next to be read, as far as the clock goes.
    #[verifier::allow_in_spec]
    pub fn deadline(&self, now: u64) -> u64
        returns
            (if self.last_refresh + self.interval(now) > u64::MAX {
                u64::MAX
            } else {
                (self.last_refresh + self.interval(now)) as u64
            }),
    {
        let interval: u64 = self.interval(now);
        if self.last_refresh > u64::MAX - interval {
            u64::MAX
        } else {
            self.last_refresh + interval
        }
    }

    /// The compositor has said something.
    pub fn hear(&mut self)
        ensures
            *final(self) == (Layout { dirty: true, ..*old(self) }),
    {
        self.dirty = true;
    }

    /// The layout is about to be read.
    pub fn begin_reading(&mut self, now: u64)
        ensures
            *final(self) == (Layout { dirty: false, last_refresh: now, ..*old(self) }),
    {
        self.dirty = false;
        self.last_refresh = now;
    }

    /// The layout has been read; did any window really move?
    pub fn end_reading(&mut self, changed: bool, now: u64)
        ensures
            *final(self) == if changed {
                Layout { last_change: now, ..*old(self) }
            } else {
                *old(self)
            },
    {
        if changed {
            self.last_change = now;
        }
    }
}

/// What is known of how fresh a panel is.
#[derive(Clone, Copy, Debug, PartialEq, Eq, Structural)]
pub struct Freshness {
    /// Whether the compositor still owes a frame callback. Drawing waits for
    /// it rather than piling commits up.
    pub frame_pending: bool,
    /// Whether what is on screen is known to be out of date.
    pub needs_draw: bool,
}

impl Freshness {
    /// A panel that has never been drawn.
    pub fn new() -> (r: Freshness)
        ensures
            r == (Freshness { frame_pending: false, needs_draw: true }),
    {
        Freshness { frame_pending: false, needs_draw: true }
    }

    /// Draw, but only what has to be: a panel whose contents are stale and
    /// that is not already waiting on a frame callback.
    #[verifier::allow_in_spec]
    pub fn due(&self) -> bool
        returns
            self.needs_draw && !self.frame_pending,
    {
        self.needs_draw && !self.frame_pending
    }

    /// What is on screen is out of date.
    pub fn spoil(&mut self)
        ensures
            *final(self) == (Freshness { needs_draw: true, ..*old(self) }),
    {
        self.needs_draw = true;
    }

    /// The panel is about to be drawn. Either this brings it up to date or it
    /// cannot be drawn at all yet, in which case a configure will ask again.
    pub fn begin_drawing(&mut self)
        ensures
            *final(self) == (Freshness { needs_draw: false, ..*old(self) }),
    {
        self.needs_draw = false;
    }

    /// A drawing was handed to the compositor.
    pub fn commit(&mut self)
        ensures
            *final(self) == (Freshness { frame_pending: true, ..*old(self) }),
    {
        self.frame_pending = true;
    }

    /// The compositor is ready for another drawing.
    pub fn called_back(&mut self)
        ensures
            *final(self) == (Freshness { frame_pending: false, ..*old(self) }),
    {
        self.frame_pending = false;
    }
}

/// The layout is read again once its deadline has come and not before; and the
/// deadline is never more than the idle interval away from the last reading,
/// nor less than the busy one.
pub proof fn the_layout_is_read_at_its_deadline(l: Layout, now: u64)
    requires
        l.last_refresh <= now,
        l.last_refresh + IDLE_REFRESH <= u64::MAX,
    ensures
        l.due(now) <==> l.deadline(now) <= now,
        l.last_refresh + BUSY_REFRESH <= l.deadline(now) <= l.last_refresh + IDLE_REFRESH,
{
}

/// A layout that has just been read is left alone for a while, even if the
/// compositor speaks up again at once.
pub proof fn a_burst_of_events_does_not_force_a_reading(l: Layout, read: u64, now: u64)
    requires
        read <= now < read + BUSY_REFRESH,
    ensures
        !(Layout { dirty: true, last_refresh: read, ..l }).due(now),
{
}

} // verus!

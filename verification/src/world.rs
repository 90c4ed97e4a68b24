//! Everything outside the sheep that it can run into.
//!
//! All coordinates are global: monitors are rectangles laid out in one space,
//! which is what lets a sheep walk off one screen and onto the next.

use vstd::prelude::*;

use crate::number::{clamped, zero, Number};

verus! {

/// A rectangle the sheep can stand on the top edge of.
#[derive(Clone, Copy, Debug, PartialEq)]
pub struct Rect<N> {
    /// Stable identity, so we can tell "the window moved" from "a different window".
    pub id: u64,
    pub x: N,
    pub y: N,
    pub w: N,
    pub h: N,
}

impl<N: Number> Rect<N> {
    /// Where the top edge is.
    #[verifier::allow_in_spec]
    pub fn top(&self) -> N
        returns
            self.y,
    {
        self.y
    }

    /// Where the left edge is.
    #[verifier::allow_in_spec]
    pub fn left(&self) -> N
        returns
            self.x,
    {
        self.x
    }

    /// Where the right edge is.
    #[verifier::allow_in_spec]
    pub fn right(&self) -> N
        returns
            self.x.plus(self.w),
    {
        self.x.plus(self.w)
    }

    /// Where the bottom edge is.
    #[verifier::allow_in_spec]
    pub fn bottom(&self) -> N
        returns
            self.y.plus(self.h),
    {
        self.y.plus(self.h)
    }

    /// Does a box from `x`, one tile wide, reach over the rectangle sideways?
    #[verifier::allow_in_spec]
    pub fn spans(&self, x: N, tile: N) -> bool
        returns
            self.left().below(x.plus(tile)) && x.below(self.right()),
    {
        self.left().below(x.plus(tile)) && x.below(self.right())
    }
}

/// One monitor, placed in the global coordinate space.
#[derive(Debug, PartialEq)]
pub struct Screen<N> {
    pub id: i64,
    pub x: N,
    pub y: N,
    pub w: N,
    pub h: N,
    /// Space claimed by bars: left, top, right, bottom.
    pub reserved: (N, N, N, N),
    /// The workspace this monitor is showing at the moment. A sheep is on
    /// show only while this is the workspace it belongs to.
    pub workspace: i64,
}

impl<N: Copy> Copy for Screen<N> {

}

impl<N: Copy> Clone for Screen<N> {
    fn clone(&self) -> (r: Self)
        ensures
            r == *self,
    {
        *self
    }
}

impl<N: Number> Screen<N> {
    /// The screen of a sheep in a world without any.
    #[verifier::allow_in_spec]
    pub fn nowhere() -> Screen<N>
        returns
            (Screen {
                id: -1i64,
                x: zero::<N>(),
                y: zero(),
                w: zero(),
                h: zero(),
                reserved: (zero(), zero(), zero(), zero()),
                workspace: -1i64,
            }),
    {
        Screen {
            id: -1,
            x: zero(),
            y: zero(),
            w: zero(),
            h: zero(),
            reserved: (zero(), zero(), zero(), zero()),
            workspace: -1,
        }
    }

    /// Where the right edge is.
    #[verifier::allow_in_spec]
    pub fn right(&self) -> N
        returns
            self.x.plus(self.w),
    {
        self.x.plus(self.w)
    }

    /// Where the bottom edge is.
    #[verifier::allow_in_spec]
    pub fn bottom(&self) -> N
        returns
            self.y.plus(self.h),
    {
        self.y.plus(self.h)
    }

    /// Global y of the walkable floor: the bottom, minus any bottom bar.
    #[verifier::allow_in_spec]
    pub fn floor(&self) -> N
        returns
            self.bottom().minus(self.reserved.3),
    {
        self.bottom().minus(self.reserved.3)
    }

    /// Is the point on this screen?
    #[verifier::allow_in_spec]
    pub fn contains(&self, x: N, y: N) -> bool
        returns
            self.x.at_most(x) && x.below(self.right()) && self.y.at_most(y) && y.below(
                self.bottom(),
            ),
    {
        self.x.at_most(x) && x.below(self.right()) && self.y.at_most(y) && y.below(self.bottom())
    }

    /// The square of how far the point is from the screen.
    #[verifier::allow_in_spec]
    pub fn distance(&self, x: N, y: N) -> N
        returns
            ({
                let dx = x.minus(clamped(x, self.x, self.right()));
                let dy = y.minus(clamped(y, self.y, self.bottom()));
                dx.times(dx).plus(dy.times(dy))
            }),
    {
        let dx = x.minus(clamped(x, self.x, self.right()));
        let dy = y.minus(clamped(y, self.y, self.bottom()));
        dx.times(dx).plus(dy.times(dy))
    }
}

/// Everything outside the sheep that it can collide with.
#[derive(Debug)]
pub struct World<N> {
    pub screens: Vec<Screen<N>>,
    /// Walkable window edges, highest first.
    pub windows: Vec<Rect<N>>,
    /// Where the sheep are, one square each, including whichever sheep is
    /// being stepped: a sheep picks itself out of the list by id. The host
    /// refreshes it every frame, so it is as current as the drawing is.
    pub flock: Vec<Rect<N>>,
    /// Where the mouse pointer is resting, if it is resting anywhere.
    ///
    /// A pointer in motion is on its way somewhere and is not in here: the
    /// host puts it in the world only once it has held still, and takes it
    /// out again the moment it moves. So the sheep react to a mouse left
    /// alone beside them and not to one crossing the screen, which would look
    /// like being pushed around by something invisible.
    pub pointer: Option<(N, N)>,
}

/// The first rectangle from place `i` on that has this id.
pub open spec fn rect_from<N>(rects: Seq<Rect<N>>, id: u64, i: int) -> Option<Rect<N>>
    decreases rects.len() - i,
{
    if 0 <= i < rects.len() {
        if rects[i].id == id {
            Some(rects[i])
        } else {
            rect_from(rects, id, i + 1)
        }
    } else {
        None
    }
}

/// The first screen from place `i` on that holds the point.
pub open spec fn screen_from<N: Number>(screens: Seq<Screen<N>>, x: N, y: N, i: int) -> Option<
    Screen<N>,
>
    decreases screens.len() - i,
{
    if 0 <= i < screens.len() {
        if screens[i].contains(x, y) {
            Some(screens[i])
        } else {
            screen_from(screens, x, y, i + 1)
        }
    } else {
        None
    }
}

/// Is the screen in place `k` the nearest to the point, and the first of those
/// as near?
pub open spec fn is_nearest<N: Number>(screens: Seq<Screen<N>>, x: N, y: N, k: int) -> bool {
    &&& 0 <= k < screens.len()
    &&& forall|j: int|
        0 <= j < screens.len() ==> screens[k].distance(x, y).rank() <= (
        #[trigger] screens[j]).distance(x, y).rank()
    &&& forall|j: int|
        0 <= j < k ==> screens[k].distance(x, y).rank() < (#[trigger] screens[j]).distance(
            x,
            y,
        ).rank()
}

/// The place of the nearest screen to the point.
pub open spec fn nearest<N: Number>(screens: Seq<Screen<N>>, x: N, y: N) -> int {
    choose|k: int| is_nearest(screens, x, y, k)
}

proof fn lemma_one_nearest<N: Number>(screens: Seq<Screen<N>>, x: N, y: N, a: int, b: int)
    requires
        is_nearest(screens, x, y, a),
        is_nearest(screens, x, y, b),
    ensures
        a == b,
{
    assert(screens[a].distance(x, y).rank() <= screens[b].distance(x, y).rank());
    assert(screens[b].distance(x, y).rank() <= screens[a].distance(x, y).rank());
}

impl<N: Number> World<N> {
    /// The window with this id.
    pub open spec fn window(self, id: u64) -> Option<Rect<N>> {
        rect_from(self.windows@, id, 0)
    }

    /// Looks a window up by its id.
    pub fn find(&self, id: u64) -> (r: Option<Rect<N>>)
        ensures
            r == self.window(id),
    {
        let mut i: usize = 0;
        while i < self.windows.len()
            invariant
                i <= self.windows@.len(),
                rect_from(self.windows@, id, 0) == rect_from(self.windows@, id, i as int),
            decreases self.windows@.len() - i,
        {
            if self.windows[i].id == id {
                return Some(self.windows[i]);
            }
            i = i + 1;
        }
        None
    }

    /// The screen the point is on.
    pub open spec fn spec_screen_at(&self, x: N, y: N) -> Option<Screen<N>> {
        screen_from(self.screens@, x, y, 0)
    }

    /// The screen containing a point, if any.
    #[verifier::when_used_as_spec(spec_screen_at)]
    pub fn screen_at(&self, x: N, y: N) -> (r: Option<Screen<N>>)
        ensures
            r == self.spec_screen_at(x, y),
    {
        let mut i: usize = 0;
        while i < self.screens.len()
            invariant
                i <= self.screens@.len(),
                screen_from(self.screens@, x, y, 0) == screen_from(self.screens@, x, y, i as int),
            decreases self.screens@.len() - i,
        {
            if self.screens[i].contains(x, y) {
                return Some(self.screens[i]);
            }
            i = i + 1;
        }
        None
    }

    /// The screen the point belongs to.
    #[verifier::opaque]
    pub open spec fn spec_screen_for(&self, x: N, y: N) -> Option<Screen<N>> {
        match self.screen_at(x, y) {
            Some(s) => Some(s),
            None => if self.screens@.len() == 0 {
                None
            } else {
                Some(self.screens@[nearest(self.screens@, x, y)])
            },
        }
    }

    /// The screen a point belongs to, falling back to the nearest one so the
    /// sheep always has somewhere to be even in a gap between monitors.
    #[verifier::when_used_as_spec(spec_screen_for)]
    pub fn screen_for(&self, x: N, y: N) -> (r: Option<Screen<N>>)
        ensures
            r == self.spec_screen_for(x, y),
    {
        reveal(World::spec_screen_for);
        if let Some(s) = self.screen_at(x, y) {
            return Some(s);
        }
        if self.screens.len() == 0 {
            return None;
        }
        let mut best: usize = 0;
        let mut i: usize = 1;
        while i < self.screens.len()
            invariant
                1 <= i <= self.screens@.len(),
                best < i,
                forall|j: int|
                    0 <= j < i ==> self.screens@[best as int].distance(x, y).rank() <= (
                    #[trigger] self.screens@[j]).distance(x, y).rank(),
                forall|j: int|
                    0 <= j < best ==> self.screens@[best as int].distance(x, y).rank() < (
                    #[trigger] self.screens@[j]).distance(x, y).rank(),
            decreases self.screens@.len() - i,
        {
            if self.screens[i].distance(x, y).rank() < self.screens[best].distance(x, y).rank() {
                best = i;
            }
            i = i + 1;
        }
        proof {
            assert(is_nearest(self.screens@, x, y, best as int));
            lemma_one_nearest(self.screens@, x, y, best as int, nearest(self.screens@, x, y));
        }
        Some(self.screens[best])
    }

    /// Does the desktop go on at this point?
    #[verifier::allow_in_spec]
    pub fn continues(&self, x: N, y: N) -> bool
        returns
            self.screen_at(x, y) is Some,
    {
        self.screen_at(x, y).is_some()
    }
}

proof fn lemma_a_screen_holds_it<N: Number>(screens: Seq<Screen<N>>, x: N, y: N, i: int)
    requires
        0 <= i <= screens.len(),
    ensures
        match screen_from(screens, x, y, i) {
            Some(s) => screens.contains(s) && s.contains(x, y),
            None => forall|j: int|
                i <= j < screens.len() ==> !(#[trigger] screens[j]).contains(x, y),
        },
    decreases screens.len() - i,
{
    if i < screens.len() {
        lemma_a_screen_holds_it(screens, x, y, i + 1);
    }
}

pub(crate) proof fn lemma_there_is_a_nearest<N: Number>(screens: Seq<Screen<N>>, x: N, y: N)
    requires
        screens.len() > 0,
    ensures
        exists|k: int| is_nearest(screens, x, y, k),
    decreases screens.len(),
{
    let last = screens.len() - 1;
    if last == 0 {
        assert(is_nearest(screens, x, y, 0));
    } else {
        let rest = screens.drop_last();
        lemma_there_is_a_nearest(rest, x, y);
        let k = choose|k: int| is_nearest(rest, x, y, k);
        assert(rest[k] == screens[k]);
        if screens[last].distance(x, y).rank() < screens[k].distance(x, y).rank() {
            assert forall|j: int| 0 <= j < last implies screens[last].distance(x, y).rank() < (
            #[trigger] screens[j]).distance(x, y).rank() by {
                assert(rest[j] == screens[j]);
            }
            assert(is_nearest(screens, x, y, last));
        } else {
            assert forall|j: int| 0 <= j < last implies screens[k].distance(x, y).rank() <= (
            #[trigger] screens[j]).distance(x, y).rank() by {
                assert(rest[j] == screens[j]);
            }
            assert forall|j: int| 0 <= j < k implies screens[k].distance(x, y).rank() < (
            #[trigger] screens[j]).distance(x, y).rank() by {
                assert(rest[j] == screens[j]);
            }
            assert(is_nearest(screens, x, y, k));
        }
    }
}

/// In a world with any screens every point belongs to one of them: to one it
/// is on where it is on any, else to the nearest.
pub proof fn every_point_belongs_to_a_screen<N: Number>(world: World<N>, x: N, y: N)
    requires
        world.screens@.len() > 0,
    ensures
        world.screen_for(x, y) is Some,
        world.screens@.contains(world.screen_for(x, y)->0),
        world.continues(x, y) <==> exists|i: int|
            0 <= i < world.screens@.len() && (#[trigger] world.screens@[i]).contains(x, y),
        world.continues(x, y) ==> (world.screen_for(x, y)->0).contains(x, y),
        !world.continues(x, y) ==> forall|i: int|
            0 <= i < world.screens@.len() ==> (world.screen_for(x, y)->0).distance(x, y).rank() <= (
            #[trigger] world.screens@[i]).distance(x, y).rank(),
{
    reveal(World::spec_screen_for);
    lemma_a_screen_holds_it(world.screens@, x, y, 0);
    lemma_there_is_a_nearest(world.screens@, x, y);
    if world.continues(x, y) {
        let s = world.screen_for(x, y)->0;
        let i = choose|i: int| 0 <= i < world.screens@.len() && world.screens@[i] == s;
        assert(world.screens@[i].contains(x, y));
    }
}

} // verus!

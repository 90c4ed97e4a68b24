//! What a sheep is standing on, walking into, or pressed against.

use vstd::prelude::*;

use crate::anim::Situation;
use crate::number::{one, within_two, zero, Number};
use crate::sheep::{meet_reach, side_reach, Sheep};
use crate::world::{Rect, Screen, World};

verus! {

/// The first entry from place `i` on that passes the test.
pub open spec fn first_where<T>(s: Seq<T>, test: spec_fn(T) -> bool, i: int) -> Option<T>
    decreases s.len() - i,
{
    if 0 <= i < s.len() {
        if test(s[i]) {
            Some(s[i])
        } else {
            first_where(s, test, i + 1)
        }
    } else {
        None
    }
}

/// Having walked into a rectangle: where the walker is held, flush against
/// the face it hit. Only a face that was just crossed is hit: one behind the
/// walker by no more than `reach`.
#[verifier::allow_in_spec]
pub fn face_at<N: Number>(r: &Rect<N>, x: N, tile: N, reach: N, dir: N) -> Option<N>
    returns
        ({
            let (edge, past) = if dir.below(zero()) {
                (r.right(), r.right().minus(x))
            } else {
                (r.left().minus(tile), x.plus(tile).minus(r.left()))
            };
            if zero::<N>().below(past) && past.at_most(reach) {
                Some(edge)
            } else {
                None
            }
        }),
{
    let (edge, past) = if dir.below(zero()) {
        (r.right(), r.right().minus(x))
    } else {
        (r.left().minus(tile), x.plus(tile).minus(r.left()))
    };
    if zero::<N>().below(past) && past.at_most(reach) {
        Some(edge)
    } else {
        None
    }
}

/// Of two faces, the one furthest back along the way the walker came. Going
/// left that is the one further right, and the later of two in one place;
/// going right, the one further left, and the earlier.
#[verifier::allow_in_spec]
pub fn further_back<N: Number>(a: (u64, N), b: (u64, N), dir: N) -> (u64, N)
    returns
        (if dir.below(zero()) {
            if b.1.rank() >= a.1.rank() {
                b
            } else {
                a
            }
        } else {
            if b.1.rank() < a.1.rank() {
                b
            } else {
                a
            }
        }),
{
    if dir.below(zero()) {
        if b.1.rank() >= a.1.rank() {
            b
        } else {
            a
        }
    } else {
        if b.1.rank() < a.1.rank() {
            b
        } else {
            a
        }
    }
}

/// The face furthest back of `best` and those of the rectangles from place
/// `i` on.
pub open spec fn face_from<N: Number>(
    rects: Seq<Rect<N>>,
    x: N,
    tile: N,
    reach: N,
    dir: N,
    i: int,
    best: Option<(u64, N)>,
) -> Option<(u64, N)>
    decreases rects.len() - i,
{
    if 0 <= i < rects.len() {
        let best = match face_at(&rects[i], x, tile, reach, dir) {
            Some(edge) => match best {
                Some(b) => Some(further_back(b, (rects[i].id, edge), dir)),
                None => Some((rects[i].id, edge)),
            },
            None => best,
        };
        face_from(rects, x, tile, reach, dir, i + 1, best)
    } else {
        best
    }
}

/// The face that stops a walker among these rectangles. Standing still runs
/// into nothing.
pub open spec fn stopping_face<N: Number>(
    rects: Seq<Rect<N>>,
    x: N,
    tile: N,
    reach: N,
    dir: N,
) -> Option<(u64, N)> {
    if dir.below(zero()) || zero::<N>().below(dir) {
        face_from(rects, x, tile, reach, dir, 0, None)
    } else {
        None
    }
}

/// Finds the face that stops a walker.
fn find_face<N: Number>(rects: &Vec<Rect<N>>, x: N, tile: N, reach: N, dir: N) -> (r: Option<
    (u64, N),
>)
    ensures
        r == stopping_face(rects@, x, tile, reach, dir),
{
    if !(dir.below(zero()) || zero::<N>().below(dir)) {
        return None;
    }
    let mut best: Option<(u64, N)> = None;
    let mut i: usize = 0;
    while i < rects.len()
        invariant
            i <= rects@.len(),
            face_from(rects@, x, tile, reach, dir, 0, None) == face_from(
                rects@,
                x,
                tile,
                reach,
                dir,
                i as int,
                best,
            ),
        decreases rects@.len() - i,
    {
        if let Some(edge) = face_at(&rects[i], x, tile, reach, dir) {
            best = match best {
                Some(b) => Some(further_back(b, (rects[i].id, edge), dir)),
                None => Some((rects[i].id, edge)),
            };
        }
        i = i + 1;
    }
    best
}

impl<N: Number> Sheep<N> {
    /// Is the sheep's foot line resting on this rectangle's top edge?
    #[verifier::allow_in_spec]
    pub fn stands_on(&self, r: &Rect<N>, tile: N, sticky: bool) -> bool
        returns
            ({
                let feet = self.y.plus(tile);
                let margin = N::whole(
                    if sticky {
                        5
                    } else {
                        20
                    },
                );
                r.top().minus(N::whole(2)).below(feet) && feet.below(r.top().plus(margin))
                    && r.left().below(self.x) && self.x.below(r.right().minus(tile))
            }),
    {
        let feet = self.y.plus(tile);
        let margin = N::whole(
            if sticky {
                5
            } else {
                20
            },
        );
        r.top().minus(N::whole(2)).below(feet) && feet.below(r.top().plus(margin))
            && r.left().below(self.x) && self.x.below(r.right().minus(tile))
    }

    /// The window the sheep is really standing on.
    pub open spec fn spec_standing_on(&self, world: &World<N>, tile: N) -> Option<u64> {
        match self.resting_on {
            Some(id) => match world.window(id) {
                Some(r) => if self.stands_on(&r, tile, true) {
                    Some(id)
                } else {
                    None
                },
                None => None,
            },
            None => None,
        }
    }

    /// The window the sheep is actually standing on.
    ///
    /// The stored reference is deliberately kept for a moment after the sheep
    /// steps off an edge, so it can be nudged back on; this reports only real
    /// support.
    #[verifier::when_used_as_spec(spec_standing_on)]
    pub fn standing_on(&self, world: &World<N>, tile: N) -> (r: Option<u64>)
        ensures
            r == self.spec_standing_on(world, tile),
    {
        match self.resting_on {
            Some(id) => match world.find(id) {
                Some(r) => if self.stands_on(&r, tile, true) {
                    Some(id)
                } else {
                    None
                },
                None => None,
            },
            None => None,
        }
    }

    /// The test for a top edge under the feet.
    pub open spec fn under(self, tile: N, sticky: bool) -> spec_fn(Rect<N>) -> bool {
        |r: Rect<N>| self.stands_on(&r, tile, sticky)
    }

    /// The first window whose top edge is under the sheep's feet.
    pub fn surface_under(&self, world: &World<N>, tile: N, sticky: bool) -> (r: Option<Rect<N>>)
        ensures
            r == first_where(world.windows@, self.under(tile, sticky), 0),
    {
        let ghost test = self.under(tile, sticky);
        let mut i: usize = 0;
        while i < world.windows.len()
            invariant
                i <= world.windows@.len(),
                test == self.under(tile, sticky),
                first_where(world.windows@, test, 0) == first_where(
                    world.windows@,
                    test,
                    i as int,
                ),
            decreases world.windows@.len() - i,
        {
            if self.stands_on(&world.windows[i], tile, sticky) {
                return Some(world.windows[i]);
            }
            i = i + 1;
        }
        None
    }

    /// Is the sheep's body alongside this window's face, rather than resting on
    /// its top edge? Standing on a ledge puts the feet exactly on `top`, which
    /// must not count as being inside the window.
    #[verifier::allow_in_spec]
    pub fn beside(&self, r: &Rect<N>, tile: N) -> bool
        returns
            self.climb_windows && r.top().plus(N::whole(2)).below(self.y.plus(tile))
                && self.y.below(r.bottom()),
    {
        self.climb_windows && r.top().plus(N::whole(2)).below(self.y.plus(tile)) && self.y.below(
            r.bottom(),
        )
    }

    /// The test for a window whose sides are solid to the sheep: one it is
    /// beside, and has not decided to walk through.
    pub open spec fn solid(self, tile: N) -> spec_fn(Rect<N>) -> bool {
        |r: Rect<N>| self.beside(&r, tile) && self.passing != Some(r.id)
    }

    /// Walking into a window's side: the window, and the x the sheep is held
    /// at flush against the face it hit. `dir` is the direction of travel.
    ///
    /// Only a face the sheep has just crossed stops it, so one that starts out
    /// within a window - dropped in, or the window opened around it - walks out
    /// rather than being shoved to the nearest edge. A face it has decided to
    /// walk through is not there either, until it is clear of that window.
    /// Several windows can overlap the sheep; the one that stops it is the
    /// one furthest back along the way it came.
    pub fn window_side(&self, world: &World<N>, tile: N, dir: N) -> (r: Option<(u64, N)>)
        ensures
            r == stopping_face(
                world.windows@.filter(self.solid(tile)),
                self.x,
                tile,
                side_reach(self.scale),
                dir,
            ),
    {
        let ghost test = self.solid(tile);
        let mut rects: Vec<Rect<N>> = Vec::new();
        let mut i: usize = 0;
        while i < world.windows.len()
            invariant
                i <= world.windows@.len(),
                test == self.solid(tile),
                rects@ == world.windows@.take(i as int).filter(test),
            decreases world.windows@.len() - i,
        {
            let r = world.windows[i];
            proof {
                reveal(Seq::filter);
                assert(world.windows@.take(i + 1).drop_last() == world.windows@.take(i as int));
            }
            let passed = match self.passing {
                Some(id) => id == r.id,
                None => false,
            };
            if self.beside(&r, tile) && !passed {
                rects.push(r);
            }
            i = i + 1;
        }
        assert(world.windows@.take(i as int) == world.windows@);
        find_face(&rects, self.x, tile, side_reach(self.scale), dir)
    }

    /// The square this sheep takes up, as the rest of the flock sees it.
    #[verifier::allow_in_spec]
    pub fn bounds(&self, tile: N) -> Rect<N>
        returns
            (Rect { id: self.id, x: self.x, y: self.y, w: tile, h: tile }),
    {
        Rect { id: self.id, x: self.x, y: self.y, w: tile, h: tile }
    }

    /// Are the two sheep at the same height - near enough to be face to face
    /// rather than one of them standing on a ledge over the other?
    #[verifier::allow_in_spec]
    pub fn level_with(&self, r: &Rect<N>, tile: N) -> bool
        returns
            self.y.minus(r.top()).magnitude().below(tile.times(meet_reach())),
    {
        self.y.minus(r.top()).magnitude().below(tile.times(meet_reach()))
    }

    /// The test for another sheep this one is level with and has not decided
    /// to walk past.
    pub open spec fn meets(self, tile: N) -> spec_fn(Rect<N>) -> bool {
        |r: Rect<N>|
            r.id != self.id && self.passing_sheep != Some(r.id) && self.level_with(&r, tile)
    }

    /// The sheep this one walks into, and the x it is held at.
    pub open spec fn spec_sheep_face(self, world: World<N>, tile: N, dir: N) -> Option<(u64, N)> {
        if self.shown(&world, tile) {
            stopping_face(
                world.flock@.filter(self.meets(tile)),
                self.x,
                tile,
                side_reach(self.scale),
                dir,
            )
        } else {
            None
        }
    }

    /// Walking into another sheep: that sheep, and the x this one is held at,
    /// nose to nose with it. `dir` is the direction of travel.
    ///
    /// Read the same way as [`window_side`](Self::window_side): only a sheep
    /// just walked into is in the way, so two that start out overlapping -
    /// spawned together, or dropped on one another - walk apart rather than
    /// being shoved aside, and one already being walked past stays passable.
    pub fn sheep_face(&self, world: &World<N>, tile: N, dir: N) -> (r: Option<(u64, N)>)
        ensures
            r == self.spec_sheep_face(*world, tile, dir),
    {
        // Out of sight is out of the way: a sheep on a workspace nobody is
        // looking at shares the screen with the flock but not the world. The
        // host leaves it out of the flock for the same reason.
        if !self.shown(world, tile) {
            return None;
        }
        let ghost test = self.meets(tile);
        let mut rects: Vec<Rect<N>> = Vec::new();
        let mut i: usize = 0;
        while i < world.flock.len()
            invariant
                i <= world.flock@.len(),
                test == self.meets(tile),
                rects@ == world.flock@.take(i as int).filter(test),
            decreases world.flock@.len() - i,
        {
            let r = world.flock[i];
            proof {
                reveal(Seq::filter);
                assert(world.flock@.take(i + 1).drop_last() == world.flock@.take(i as int));
            }
            let passed = match self.passing_sheep {
                Some(id) => id == r.id,
                None => false,
            };
            if r.id != self.id && !passed && self.level_with(&r, tile) {
                rects.push(r);
            }
            i = i + 1;
        }
        assert(world.flock@.take(i as int) == world.flock@);
        find_face(&rects, self.x, tile, side_reach(self.scale), dir)
    }

    /// The resting pointer this sheep still finds interesting, if any.
    #[verifier::allow_in_spec]
    pub fn pointer(&self, world: &World<N>) -> Option<(N, N)>
        returns
            (match (world.pointer, self.met_pointer) {
                (Some(p), Some(met)) => if met.0.same(p.0) && met.1.same(p.1) {
                    None
                } else {
                    Some(p)
                },
                (p, _) => p,
            }),
    {
        match (world.pointer, self.met_pointer) {
            (Some(p), Some(met)) => if met.0.same(p.0) && met.1.same(p.1) {
                None
            } else {
                Some(p)
            },
            (p, _) => p,
        }
    }

    /// Is a point at the sheep's own height - in front of its face, rather
    /// than over its head or below its feet?
    #[verifier::allow_in_spec]
    pub fn level_at(&self, y: N, tile: N) -> bool
        returns
            self.y.minus(tile.times(meet_reach())).below(y) && y.below(
                self.y.plus(tile.times(one::<N>().plus(meet_reach()))),
            ),
    {
        self.y.minus(tile.times(meet_reach())).below(y) && y.below(
            self.y.plus(tile.times(one::<N>().plus(meet_reach()))),
        )
    }

    /// Walking into the resting pointer: the x the sheep is held at, nose to
    /// it. `dir` is the direction of travel.
    ///
    /// Read like [`sheep_face`](Self::sheep_face): the pointer has to be
    /// something the sheep has just walked into, so one that comes to rest on
    /// top of a sheep is not in its way and it walks out from under it.
    #[verifier::allow_in_spec]
    pub fn pointer_face(&self, world: &World<N>, tile: N, dir: N) -> Option<N>
        returns
            (match self.pointer(world) {
                Some((px, py)) => if self.level_at(py, tile) {
                    let (edge, past) = if dir.below(zero()) {
                        (px, px.minus(self.x))
                    } else {
                        (px.minus(tile), self.x.plus(tile).minus(px))
                    };
                    if zero::<N>().below(past) && past.at_most(side_reach(self.scale)) {
                        Some(edge)
                    } else {
                        None
                    }
                } else {
                    None
                },
                None => None,
            }),
    {
        match self.pointer(world) {
            Some((px, py)) => if self.level_at(py, tile) {
                let (edge, past) = if dir.below(zero()) {
                    (px, px.minus(self.x))
                } else {
                    (px.minus(tile), self.x.plus(tile).minus(px))
                };
                if zero::<N>().below(past) && past.at_most(side_reach(self.scale)) {
                    Some(edge)
                } else {
                    None
                }
            } else {
                None
            },
            None => None,
        }
    }

    /// Is the sheep flush with one of these two faces?
    #[verifier::allow_in_spec]
    pub fn hugs(&self, left: N, right: N, tile: N) -> bool
        returns
            within_two(self.x, right) || within_two(self.x.plus(tile), left),
    {
        within_two(self.x, right) || within_two(self.x.plus(tile), left)
    }

    /// Does the sheep press against a face of the window?
    #[verifier::allow_in_spec]
    pub fn presses(&self, r: &Rect<N>, tile: N) -> bool
        returns
            self.beside(r, tile) && self.hugs(r.left(), r.right(), tile),
    {
        self.beside(r, tile) && self.hugs(r.left(), r.right(), tile)
    }

    /// Is the sheep pressed against some window's face?
    pub open spec fn spec_on_window_side(&self, world: &World<N>, tile: N) -> bool {
        exists|i: int|
            0 <= i < world.windows@.len() && self.presses(#[trigger] &world.windows@[i], tile)
    }

    /// Is the sheep pressed against a window's face, having been stopped by it?
    #[verifier::when_used_as_spec(spec_on_window_side)]
    pub fn on_window_side(&self, world: &World<N>, tile: N) -> (r: bool)
        ensures
            r == self.spec_on_window_side(world, tile),
    {
        let mut i: usize = 0;
        while i < world.windows.len()
            invariant
                i <= world.windows@.len(),
                forall|j: int|
                    0 <= j < i ==> !self.presses(#[trigger] &world.windows@[j], tile),
            decreases world.windows@.len() - i,
        {
            if self.presses(&world.windows[i], tile) {
                return true;
            }
            i = i + 1;
        }
        false
    }

    /// Is the sheep climbing a face that ends at `top`, and about to pass it?
    #[verifier::allow_in_spec]
    pub fn cresting(&self, top: N, bottom: N, left: N, right: N, tile: N) -> bool
        returns
            ({
                let feet = self.y.plus(tile);
                self.y.below(bottom) && feet.at_most(top.plus(N::whole(2))) && top.minus(
                    side_reach(self.scale),
                ).below(feet) && self.hugs(left, right, tile)
            }),
    {
        let feet = self.y.plus(tile);
        self.y.below(bottom) && feet.at_most(top.plus(N::whole(2))) && top.minus(
            side_reach(self.scale),
        ).below(feet) && self.hugs(left, right, tile)
    }

    /// The test for a window whose top the sheep is climbing past.
    pub open spec fn crests(self, tile: N) -> spec_fn(Rect<N>) -> bool {
        |r: Rect<N>| self.cresting(r.top(), r.bottom(), r.left(), r.right(), tile)
    }

    /// The window the sheep climbs onto.
    pub open spec fn spec_window_crest(self, world: World<N>, tile: N, dir: N) -> Option<Rect<N>> {
        if zero::<N>().at_most(dir) || !self.climb_windows {
            None
        } else {
            first_where(world.windows@, self.crests(tile), 0)
        }
    }

    /// Climbing a window's face and about to pass its top: the sheep tops out
    /// onto the ledge instead of carrying on up through the air above it.
    pub fn window_crest(&self, world: &World<N>, tile: N, dir: N) -> (r: Option<Rect<N>>)
        ensures
            r == self.spec_window_crest(*world, tile, dir),
    {
        if zero::<N>().at_most(dir) || !self.climb_windows {
            return None;
        }
        let ghost test = self.crests(tile);
        let mut i: usize = 0;
        while i < world.windows.len()
            invariant
                i <= world.windows@.len(),
                !zero::<N>().at_most(dir) && self.climb_windows,
                test == self.crests(tile),
                first_where(world.windows@, test, 0) == first_where(
                    world.windows@,
                    test,
                    i as int,
                ),
            decreases world.windows@.len() - i,
        {
            let r = world.windows[i];
            if self.cresting(r.top(), r.bottom(), r.left(), r.right(), tile) {
                return Some(r);
            }
            i = i + 1;
        }
        None
    }

    /// The test for a screen whose floor the sheep is climbing past, up the
    /// outside of it.
    pub open spec fn surfaces(self, tile: N) -> spec_fn(Screen<N>) -> bool {
        |s: Screen<N>| self.cresting(s.floor(), s.bottom(), s.x, s.right(), tile)
    }

    /// The screen the sheep climbs onto.
    pub open spec fn spec_screen_crest(self, world: World<N>, tile: N, dir: N) -> Option<
        Screen<N>,
    > {
        if zero::<N>().at_most(dir) {
            None
        } else {
            first_where(world.screens@, self.surfaces(tile), 0)
        }
    }

    /// Climbing a screen edge and about to pass the floor of the monitor
    /// beside it: the sheep steps out onto that monitor rather than carrying
    /// on up a wall that has stopped being one.
    ///
    /// This is what a monitor layout that is not one straight row needs. Where
    /// a tall screen sits beside a short one, the tall screen's edge is solid
    /// only up to the short screen's floor; above that line there is a desktop
    /// to step onto, exactly as the top of a window is a ledge to step onto.
    /// The faces are measured from outside the screen, so the monitor the
    /// sheep is climbing inside of can never match its own edge.
    pub fn screen_crest(&self, world: &World<N>, tile: N, dir: N) -> (r: Option<Screen<N>>)
        ensures
            r == self.spec_screen_crest(*world, tile, dir),
    {
        if zero::<N>().at_most(dir) {
            return None;
        }
        let ghost test = self.surfaces(tile);
        let mut i: usize = 0;
        while i < world.screens.len()
            invariant
                i <= world.screens@.len(),
                !zero::<N>().at_most(dir),
                test == self.surfaces(tile),
                first_where(world.screens@, test, 0) == first_where(
                    world.screens@,
                    test,
                    i as int,
                ),
            decreases world.screens@.len() - i,
        {
            let s = world.screens[i];
            if self.cresting(s.floor(), s.bottom(), s.x, s.right(), tile) {
                return Some(s);
            }
            i = i + 1;
        }
        None
    }

    /// Does the sheep overlap this square, and is it the one with this id?
    #[verifier::allow_in_spec]
    pub fn touches(&self, r: &Rect<N>, id: u64, tile: N) -> bool
        returns
            r.id == id && self.level_with(r, tile) && r.spans(self.x, tile),
    {
        r.id == id && self.level_with(r, tile) && r.spans(self.x, tile)
    }

    /// Does the sheep still overlap that member of the flock?
    pub open spec fn spec_touching(&self, world: &World<N>, id: u64, tile: N) -> bool {
        exists|i: int|
            0 <= i < world.flock@.len() && self.touches(#[trigger] &world.flock@[i], id, tile)
    }

    /// Does the sheep still overlap that member of the flock?
    #[verifier::when_used_as_spec(spec_touching)]
    pub fn touching(&self, world: &World<N>, id: u64, tile: N) -> (r: bool)
        ensures
            r == self.spec_touching(world, id, tile),
    {
        let mut i: usize = 0;
        while i < world.flock.len()
            invariant
                i <= world.flock@.len(),
                forall|j: int|
                    0 <= j < i ==> !self.touches(#[trigger] &world.flock@[j], id, tile),
            decreases world.flock@.len() - i,
        {
            if self.touches(&world.flock[i], id, tile) {
                return true;
            }
            i = i + 1;
        }
        false
    }

    /// Where the sheep is, given whether a window holds it up.
    #[verifier::allow_in_spec]
    pub fn situation_in(&self, world: &World<N>, tile: N, on_window: bool) -> Situation
        returns
            ({
                let screen = self.screen(world, tile);
                let floor = screen.floor().minus(tile);
                Situation {
                    on_window,
                    on_taskbar: floor.minus(N::whole(2)).at_most(self.y),
                    on_vertical: self.x.at_most(screen.x) || screen.right().minus(tile).at_most(
                        self.x,
                    ) || self.on_window_side(world, tile),
                    on_horizontal: self.y.at_most(screen.y) || floor.minus(N::whole(2)).at_most(
                        self.y,
                    ),
                }
            }),
    {
        let screen = self.screen(world, tile);
        let floor = screen.floor().minus(tile);
        Situation {
            on_window,
            on_taskbar: floor.minus(N::whole(2)).at_most(self.y),
            on_vertical: self.x.at_most(screen.x) || screen.right().minus(tile).at_most(self.x)
                || self.on_window_side(world, tile),
            on_horizontal: self.y.at_most(screen.y) || floor.minus(N::whole(2)).at_most(self.y),
        }
    }

    /// The sheep, having taken stock of where it is.
    #[verifier::opaque]
    pub open spec fn situated(self, world: World<N>, tile: N, on_window: bool) -> Sheep<N> {
        Sheep { situation: self.situation_in(&world, tile, on_window), ..self }
    }

    /// Take stock of where the sheep is.
    pub fn update_situation(&mut self, world: &World<N>, tile: N, on_window: bool)
        ensures
            *final(self) == old(self).situated(*world, tile, on_window),
    {
        reveal(Sheep::situated);
        self.situation = self.situation_in(world, tile, on_window);
    }
}

} // verus!

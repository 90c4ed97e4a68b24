//! How fast the mouse is travelling.

use vstd::prelude::*;

use crate::number::{ratio, zero, Number};

verus! {

/// Where the mouse was, and when, in milliseconds on the compositor's clock,
/// which comes round to zero again.
#[derive(Debug)]
pub struct Spot<N> {
    pub x: N,
    pub y: N,
    pub time: u32,
}

impl<N: Copy> Copy for Spot<N> {

}

impl<N: Copy> Clone for Spot<N> {
    fn clone(&self) -> (r: Self)
        ensures
            r == *self,
    {
        *self
    }
}

/// The last two places of a mouse that is pressed.
#[derive(Debug)]
pub struct Trail<N> {
    pub before: Option<Spot<N>>,
    pub last: Option<Spot<N>>,
}

/// How many milliseconds a step from one place to the next took: one at least.
#[verifier::allow_in_spec]
pub fn elapsed(from: u32, to: u32) -> u32
    returns
        ({
            let ms = (to - from) % 0x1_0000_0000;
            if ms < 1 {
                1u32
            } else {
                ms as u32
            }
        }),
{
    let ms: u32 = to.wrapping_sub(from);
    if ms < 1 {
        1
    } else {
        ms
    }
}

impl<N: Number> Trail<N> {
    /// A mouse that has been nowhere yet.
    pub fn new() -> (r: Trail<N>)
        ensures
            r == (Trail::<N> { before: None, last: None }),
    {
        Trail { before: None, last: None }
    }

    /// The mouse moved.
    pub fn go(&mut self, spot: Spot<N>)
        ensures
            *final(self) == (Trail { before: old(self).last, last: Some(spot) }),
    {
        self.before = self.last;
        self.last = Some(spot);
    }

    /// The mouse was let go of. That is where it last was, but not a movement
    /// of its own: the pace is reckoned from the place before the last.
    pub fn stop(&mut self, spot: Spot<N>)
        ensures
            *final(self) == (Trail {
                before: if old(self).before is Some {
                    old(self).before
                } else {
                    old(self).last
                },
                last: Some(spot),
            }),
    {
        if self.before.is_none() {
            self.before = self.last;
        }
        self.last = Some(spot);
    }

    /// How fast the mouse was travelling over its last two places, in logical
    /// pixels per second.
    #[verifier::allow_in_spec]
    pub fn pace(&self) -> (N, N)
        returns
            (match (self.before, self.last) {
                (Some(a), Some(b)) => {
                    let seconds = ratio::<N>(elapsed(a.time, b.time) as i64, 1000);
                    (b.x.minus(a.x).over(seconds), b.y.minus(a.y).over(seconds))
                },
                _ => (zero::<N>(), zero::<N>()),
            }),
    {
        match (self.before, self.last) {
            (Some(a), Some(b)) => {
                let seconds = ratio::<N>(elapsed(a.time, b.time) as i64, 1000);
                (b.x.minus(a.x).over(seconds), b.y.minus(a.y).over(seconds))
            },
            _ => (zero(), zero()),
        }
    }
}

} // verus!

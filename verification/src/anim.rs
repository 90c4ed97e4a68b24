//! The pet animation format: the data model, and the choices made over it.

use vstd::prelude::*;

use crate::dice::{next_seed, thrown, Dice};
use crate::expr::{eval_or, seed_after, value_or, Ctx};
use crate::number::{at_least, one, zero, Number};
use crate::text::{
    alike, begins_with, chars_of, has_part, is_word, mentions, reads_alike, starts_with, trim,
    trimmed,
};

verus! {

/// Context filter on a transition: where the sheep has to be for it.
#[derive(Clone, Copy, Debug, PartialEq, Eq, Structural)]
pub enum Only {
    /// Always eligible.
    Any,
    /// Only while standing on a window edge.
    Window,
    /// Only while on the reserved bar / bottom of the work area.
    Taskbar,
    /// Only while against a vertical surface.
    Vertical,
    /// Only while against a horizontal surface.
    Horizontal,
}

/// The filter a word stands for.
pub open spec fn only_named(word: Seq<char>) -> Only {
    if word == "window"@ {
        Only::Window
    } else if word == "taskbar"@ {
        Only::Taskbar
    } else if word == "vertical"@ {
        Only::Vertical
    } else if begins_with(word, "horizontal"@) {
        Only::Horizontal
    } else {
        Only::Any
    }
}

impl Only {
    /// Reads a filter; without one, or with one nobody knows, a transition is
    /// always eligible.
    pub fn parse(s: Option<&str>) -> (r: Only)
        ensures
            r == match s {
                Some(s) => only_named(trimmed(s@)),
                None => Only::Any,
            },
    {
        let Some(s) = s else {
            return Only::Any;
        };
        let text = chars_of(s);
        let word = trim(text.as_slice());
        if is_word(word, "window") {
            Only::Window
        } else if is_word(word, "taskbar") {
            Only::Taskbar
        } else if is_word(word, "vertical") {
            Only::Vertical
        } else {
            // One transition of the first pet spells this "horizontal+".
            let head = chars_of("horizontal");
            if starts_with(word, head.as_slice()) {
                Only::Horizontal
            } else {
                Only::Any
            }
        }
    }
}

/// Where the sheep currently is, used to evaluate [`Only`] filters.
#[derive(Clone, Copy, Debug, PartialEq, Eq, Structural)]
pub struct Situation {
    pub on_window: bool,
    pub on_taskbar: bool,
    pub on_vertical: bool,
    pub on_horizontal: bool,
}

impl Default for Situation {
    /// Nowhere in particular.
    fn default() -> (r: Self)
        ensures
            !r.on_window,
            !r.on_taskbar,
            !r.on_vertical,
            !r.on_horizontal,
    {
        Situation { on_window: false, on_taskbar: false, on_vertical: false, on_horizontal: false }
    }
}

impl Situation {
    /// Does the situation meet the filter?
    #[verifier::allow_in_spec]
    pub fn allows(&self, only: Only) -> bool
        returns
            (match only {
                Only::Any => true,
                Only::Window => self.on_window,
                Only::Taskbar => self.on_taskbar,
                Only::Vertical => self.on_vertical,
                Only::Horizontal => self.on_horizontal,
            }),
    {
        match only {
            Only::Any => true,
            Only::Window => self.on_window,
            Only::Taskbar => self.on_taskbar,
            Only::Vertical => self.on_vertical,
            Only::Horizontal => self.on_horizontal,
        }
    }
}

/// A transition to another animation.
#[derive(Clone, Copy, Debug)]
pub struct Next<N> {
    pub probability: N,
    pub only: Only,
    pub target: u32,
}

/// One end of the linear ramp an animation interpolates across its run.
#[derive(Clone, Debug)]
pub struct Endpoint<N> {
    /// Per-step horizontal velocity, in pixels.
    pub x: String,
    /// Per-step vertical velocity, in pixels.
    pub y: String,
    /// Milliseconds until the next step.
    pub interval: String,
    /// Vertical draw offset.
    pub offset_y: String,
    pub opacity: N,
}

impl<N: Number> Default for Endpoint<N> {
    /// At rest, opaque, one step a second.
    fn default() -> (r: Self)
        ensures
            r.x@ == "0"@,
            r.y@ == "0"@,
            r.interval@ == "1000"@,
            r.offset_y@ == "0"@,
            r.opacity == one::<N>(),
    {
        Endpoint {
            x: "0".to_string(),
            y: "0".to_string(),
            interval: "1000".to_string(),
            offset_y: "0".to_string(),
            opacity: one(),
        }
    }
}

/// What an animation does to the sheep when it ends.
#[derive(Clone, Copy, Debug, PartialEq, Eq, Structural)]
pub enum Action {
    Nothing,
    /// Mirror the sprite horizontally, which also flips its x velocity.
    Flip,
}

/// One animation of a pet.
#[derive(Clone, Debug)]
pub struct Animation<N> {
    pub id: u32,
    pub name: String,
    pub start: Endpoint<N>,
    pub end: Endpoint<N>,
    /// Row-major tile indices into the sheet.
    pub frames: Vec<u32>,
    /// Expression for the number of extra loop passes.
    pub repeat: String,
    /// Frame index the loop returns to.
    pub repeat_from: usize,
    pub action: Action,
    /// Consulted when the sequence runs to completion.
    pub next: Vec<Next<N>>,
    /// Consulted on hitting a screen edge or landing on a surface.
    pub border: Vec<Next<N>>,
    /// Consulted while airborne with nothing underfoot.
    pub gravity: Vec<Next<N>>,
}

/// A count as a number.
#[verifier::allow_in_spec]
pub fn count<N: Number>(n: usize) -> N
    returns
        N::whole(
            if n <= i64::MAX {
                n as i64
            } else {
                i64::MAX
            },
        ),
{
    if n as u64 <= i64::MAX as u64 {
        N::whole(n as i64)
    } else {
        N::whole(i64::MAX)
    }
}

/// The steps of `frames` frames run through once and then `repeat` times more
/// from the frame numbered `from`: at least one, and no more than can be
/// counted.
pub open spec fn run_length<N: Number>(frames: usize, from: usize, repeat: N) -> u32 {
    let n = count::<N>(frames);
    let passes = at_least(repeat, zero()).trunc();
    let steps = n.plus(at_least(n.minus(count(from)), zero()).times(passes)).to_u64();
    if steps < 1 {
        1
    } else if steps > u32::MAX {
        u32::MAX
    } else {
        steps as u32
    }
}

/// Which frame of `frames` is shown at `step`, when the loop returns to the
/// frame numbered `from`.
pub open spec fn frame_place(frames: int, from: int, step: int) -> int {
    if step < frames {
        step
    } else {
        let from = if from < frames {
            from
        } else {
            frames - 1
        };
        from + (step - from) % (frames - from)
    }
}

impl<N: Number> Animation<N> {
    /// The steps of one run of the animation.
    pub open spec fn spec_steps(self, ctx: Ctx<N>, seed: u64) -> u32 {
        if self.frames@.len() == 0 {
            0
        } else {
            run_length(
                self.frames@.len() as usize,
                self.repeat_from,
                value_or(self.repeat@, ctx, zero(), seed),
            )
        }
    }

    /// The seed the dice are left at by counting the steps.
    pub open spec fn seed_after_steps(self, ctx: Ctx<N>, seed: u64) -> u64 {
        if self.frames@.len() == 0 {
            seed
        } else {
            seed_after(self.repeat@, ctx, seed)
        }
    }

    /// Total steps, including repeats: `n + (n - repeat_from) * repeat`.
    pub fn steps(&self, ctx: &Ctx<N>, dice: &mut Dice) -> (r: u32)
        ensures
            r == self.spec_steps(*ctx, old(dice).seed),
            final(dice).seed == self.seed_after_steps(*ctx, old(dice).seed),
    {
        let frames: usize = self.frames.len();
        if frames == 0 {
            return 0;
        }
        let repeat = eval_or(self.repeat.as_str(), ctx, zero(), dice);
        let passes = at_least(repeat, zero()).trunc();
        let n: N = count(frames);
        let span = at_least(n.minus(count(self.repeat_from)), zero());
        let steps: u64 = n.plus(span.times(passes)).to_u64();
        if steps < 1 {
            1
        } else if steps > u32::MAX as u64 {
            u32::MAX
        } else {
            steps as u32
        }
    }

    /// The tile shown at a step.
    pub open spec fn spec_frame_at(self, step: u32) -> u32 {
        if self.frames@.len() == 0 {
            0
        } else {
            self.frames@[frame_place(
                self.frames@.len() as int,
                self.repeat_from as int,
                step as int,
            )]
        }
    }

    /// The tile index shown at `step`, applying the repeat-from loop.
    pub fn frame_at(&self, step: u32) -> (r: u32)
        ensures
            r == self.spec_frame_at(step),
    {
        let n: usize = self.frames.len();
        if n == 0 {
            return 0;
        }
        let s: usize = step as usize;
        if s < n {
            return self.frames[s];
        }
        if self.repeat_from == 0 {
            assert(0 <= s % n < n);
            return self.frames[s % n];
        }
        let from: usize = if self.repeat_from < n - 1 {
            self.repeat_from
        } else {
            n - 1
        };
        let span: usize = n - from;
        assert(0 <= (s - from) % (span as int) < span);
        self.frames[from + (s - from) % span]
    }
}

/// Where sheep may first appear.
#[derive(Clone, Debug)]
pub struct Spawn<N> {
    pub probability: N,
    pub x: String,
    pub y: String,
    pub next: u32,
}

/// A companion sprite created when the parent enters `animation_id`.
#[derive(Clone, Debug)]
pub struct Child {
    pub animation_id: u32,
    /// Position expressions, evaluated against the *parent's* state.
    pub x: String,
    pub y: String,
    pub next: u32,
}

impl Child {
    /// Does the child stand where its parent stands?
    pub open spec fn spec_beside_parent(self) -> bool {
        mentions(self.x@, "imageX"@)
    }

    /// Is the child placed by its parent's position, rather than somewhere on
    /// the screen of its own?
    pub fn beside_parent(&self) -> (r: bool)
        ensures
            r == self.spec_beside_parent(),
    {
        let x = chars_of(self.x.as_str());
        let name = chars_of("imageX");
        has_part(x.as_slice(), name.as_slice())
    }
}

/// A pet: its animations and how it comes and goes.
#[derive(Debug)]
pub struct Pet<N> {
    pub tiles_x: u32,
    pub tiles_y: u32,
    /// The sprite sheet carried inside the file, if it has one. Pet files are
    /// normally self-contained; the bundled one has its payload stripped since
    /// the sheet ships beside it.
    pub png: Option<Vec<u8>>,
    pub spawns: Vec<Spawn<N>>,
    /// In the order of the file, with no id twice.
    pub animations: Vec<Animation<N>>,
    pub children: Vec<Child>,
}

// -- weighted picks --

/// The sum of the weights from place `i` on, on top of `acc`. Nothing weighs
/// less than zero.
pub open spec fn total_from<N: Number>(weights: Seq<N>, i: int, acc: N) -> N
    decreases weights.len() - i,
{
    if 0 <= i < weights.len() {
        total_from(weights, i + 1, acc.plus(at_least(weights[i], zero())))
    } else {
        acc
    }
}

/// The first place from `i` on whose weight, with all before it, reaches
/// `roll`; the last place where none does.
pub open spec fn reaching_from<N: Number>(weights: Seq<N>, roll: N, i: int, acc: N) -> int
    decreases weights.len() - i,
{
    if 0 <= i < weights.len() {
        let acc = acc.plus(at_least(weights[i], zero()));
        if roll.at_most(acc) {
            i
        } else {
            reaching_from(weights, roll, i + 1, acc)
        }
    } else {
        weights.len() - 1
    }
}

/// Where a weighted pick lands: the first place where nothing has any weight,
/// else wherever the throw reaches.
#[verifier::opaque]
pub open spec fn landed<N: Number>(weights: Seq<N>, seed: u64) -> int {
    let total = total_from(weights, 0, zero());
    if total.at_most(zero()) {
        0
    } else {
        reaching_from(weights, thrown::<N>(seed).times(total), 0, zero())
    }
}

/// The seed after a weighted pick: where nothing has any weight, nothing is
/// thrown.
#[verifier::opaque]
pub open spec fn seed_after_landing<N: Number>(weights: Seq<N>, seed: u64) -> u64 {
    if total_from(weights, 0, zero::<N>()).at_most(zero()) {
        seed
    } else {
        next_seed(seed)
    }
}

/// Picks a place by weight. Weights need not add up to anything.
fn draw<N: Number>(weights: &Vec<N>, dice: &mut Dice) -> (r: usize)
    requires
        weights@.len() > 0,
    ensures
        r == landed(weights@, old(dice).seed),
        r < weights@.len(),
        final(dice).seed == seed_after_landing(weights@, old(dice).seed),
{
    reveal(landed);
    reveal(seed_after_landing);
    let mut total: N = zero();
    let mut i: usize = 0;
    while i < weights.len()
        invariant
            i <= weights@.len(),
            total_from(weights@, 0, zero::<N>()) == total_from(weights@, i as int, total),
        decreases weights@.len() - i,
    {
        total = total.plus(at_least(weights[i], zero()));
        i = i + 1;
    }
    if total.at_most(zero()) {
        return 0;
    }
    let roll = dice.throw::<N>().times(total);
    let mut acc: N = zero();
    let mut j: usize = 0;
    while j < weights.len()
        invariant
            j <= weights@.len(),
            reaching_from(weights@, roll, 0, zero::<N>()) == reaching_from(
                weights@,
                roll,
                j as int,
                acc,
            ),
            landed(weights@, old(dice).seed) == reaching_from(weights@, roll, 0, zero::<N>()),
            dice.seed == seed_after_landing(weights@, old(dice).seed),
        decreases weights@.len() - j,
    {
        acc = acc.plus(at_least(weights[j], zero()));
        if roll.at_most(acc) {
            return j;
        }
        j = j + 1;
    }
    weights.len() - 1
}

proof fn lemma_landed_within<N: Number>(weights: Seq<N>, roll: N, i: int, acc: N)
    requires
        weights.len() > 0,
        0 <= i,
    ensures
        0 <= reaching_from(weights, roll, i, acc) < weights.len(),
    decreases weights.len() - i,
{
    if i < weights.len() {
        lemma_landed_within(weights, roll, i + 1, acc.plus(at_least(weights[i], zero())));
    }
}

/// The transitions the situation permits, or all of them where it permits
/// none: moving is better than freezing.
#[verifier::opaque]
pub open spec fn pool_of<N>(list: Seq<Next<N>>, situation: Situation) -> Seq<Next<N>> {
    let eligible = list.filter(|n: Next<N>| situation.allows(n.only));
    if eligible.len() == 0 {
        list
    } else {
        eligible
    }
}

/// What the transitions weigh.
pub open spec fn weights_of<N>(list: Seq<Next<N>>) -> Seq<N> {
    list.map_values(|n: Next<N>| n.probability)
}

/// The transition taken from a list.
#[verifier::opaque]
pub open spec fn chosen<N: Number>(list: Seq<Next<N>>, situation: Situation, seed: u64) -> Option<
    Next<N>,
> {
    if list.len() == 0 {
        None
    } else {
        let pool = pool_of(list, situation);
        Some(pool[landed(weights_of(pool), seed)])
    }
}

/// The seed after choosing from a list.
#[verifier::opaque]
pub open spec fn seed_after_choice<N: Number>(
    list: Seq<Next<N>>,
    situation: Situation,
    seed: u64,
) -> u64 {
    if list.len() == 0 {
        seed
    } else {
        seed_after_landing(weights_of(pool_of(list, situation)), seed)
    }
}

/// What the spawn points weigh.
pub open spec fn spawn_weights<N>(spawns: Seq<Spawn<N>>) -> Seq<N> {
    spawns.map_values(|s: Spawn<N>| s.probability)
}

// -- looking animations up --

/// The first animation from place `i` on that has this id.
pub open spec fn found<N>(animations: Seq<Animation<N>>, id: u32, i: int) -> Option<Animation<N>>
    decreases animations.len() - i,
{
    if 0 <= i < animations.len() {
        if animations[i].id == id {
            Some(animations[i])
        } else {
            found(animations, id, i + 1)
        }
    } else {
        None
    }
}

/// The first animation from place `i` on that has this name, whatever the
/// case of its letters.
pub open spec fn found_by_name<N>(
    animations: Seq<Animation<N>>,
    name: Seq<char>,
    i: int,
) -> Option<Animation<N>>
    decreases animations.len() - i,
{
    if 0 <= i < animations.len() {
        if alike(animations[i].name@, name) {
            Some(animations[i])
        } else {
            found_by_name(animations, name, i + 1)
        }
    } else {
        None
    }
}

/// Where the transitions of a list lead.
pub open spec fn targets<N>(list: Seq<Next<N>>) -> Seq<u32> {
    list.map_values(|n: Next<N>| n.target)
}

/// Where all the gravity transitions from animation `i` on lead.
pub open spec fn falls_from<N>(animations: Seq<Animation<N>>, i: int) -> Seq<u32>
    decreases animations.len() - i,
{
    if 0 <= i < animations.len() {
        targets(animations[i].gravity@) + falls_from(animations, i + 1)
    } else {
        seq![]
    }
}

/// How often `t` occurs from place `i` on.
pub open spec fn tally_from(s: Seq<u32>, t: u32, i: int) -> nat
    decreases s.len() - i,
{
    if 0 <= i < s.len() {
        (if s[i] == t {
            1nat
        } else {
            0nat
        }) + tally_from(s, t, i + 1)
    } else {
        0
    }
}

/// Does `t` occur oftener in `s` than `u`, or as often and is no greater?
pub open spec fn outranks(s: Seq<u32>, t: u32, u: u32) -> bool {
    tally_from(s, t, 0) > tally_from(s, u, 0) || (tally_from(s, t, 0) == tally_from(s, u, 0) && t
        <= u)
}

/// Is `t` the commonest entry of `s`, and the least of those as common?
pub open spec fn is_favourite(s: Seq<u32>, t: u32) -> bool {
    s.contains(t) && forall|j: int| 0 <= j < s.len() ==> outranks(s, t, #[trigger] s[j])
}

proof fn lemma_one_favourite(s: Seq<u32>, t: u32, u: u32)
    requires
        is_favourite(s, t),
        is_favourite(s, u),
    ensures
        t == u,
{
    let i = choose|i: int| 0 <= i < s.len() && s[i] == t;
    let j = choose|j: int| 0 <= j < s.len() && s[j] == u;
    assert(outranks(s, t, s[j]));
    assert(outranks(s, u, s[i]));
}

/// Every list with any entries has a favourite.
pub proof fn there_is_a_favourite(s: Seq<u32>)
    requires
        s.len() > 0,
    ensures
        exists|t: u32| is_favourite(s, t),
{
    let t = lemma_favourite_among(s, s.len() as int);
    assert(is_favourite(s, t));
}

proof fn lemma_favourite_among(s: Seq<u32>, k: int) -> (t: u32)
    requires
        1 <= k <= s.len(),
    ensures
        s.contains(t),
        forall|j: int| 0 <= j < k ==> outranks(s, t, #[trigger] s[j]),
    decreases k,
{
    if k == 1 {
        s[0]
    } else {
        let t = lemma_favourite_among(s, k - 1);
        if outranks(s, t, s[k - 1]) {
            t
        } else {
            s[k - 1]
        }
    }
}

/// How often `t` occurs in `s`.
fn tally(s: &Vec<u32>, t: u32) -> (r: usize)
    ensures
        r == tally_from(s@, t, 0),
{
    let mut n: usize = 0;
    let mut i: usize = 0;
    while i < s.len()
        invariant
            n <= i <= s@.len(),
            tally_from(s@, t, 0) == n + tally_from(s@, t, i as int),
        decreases s@.len() - i,
    {
        if s[i] == t {
            n = n + 1;
        }
        i = i + 1;
    }
    n
}

impl<N: Number> Pet<N> {
    /// The animation with this id.
    pub open spec fn animation(self, id: u32) -> Option<Animation<N>> {
        found(self.animations@, id, 0)
    }

    /// The animation with this name.
    pub open spec fn named(self, name: Seq<char>) -> Option<Animation<N>> {
        found_by_name(self.animations@, name, 0)
    }

    /// Do no two animations share an id?
    pub open spec fn ids_differ(self) -> bool {
        forall|i: int, j: int|
            0 <= i < j < self.animations@.len() ==> (#[trigger] self.animations@[i]).id != (
            #[trigger] self.animations@[j]).id
    }

    /// Looks an animation up by its id.
    pub fn get(&self, id: u32) -> (r: Option<&Animation<N>>)
        ensures
            match r {
                Some(a) => self.animation(id) == Some(*a),
                None => self.animation(id) is None,
            },
    {
        let mut i: usize = 0;
        while i < self.animations.len()
            invariant
                i <= self.animations@.len(),
                found(self.animations@, id, 0) == found(self.animations@, id, i as int),
            decreases self.animations@.len() - i,
        {
            if self.animations[i].id == id {
                return Some(&self.animations[i]);
            }
            i = i + 1;
        }
        None
    }

    /// Looks an animation up by its name, whatever the case of its letters.
    pub fn by_name(&self, name: &str) -> (r: Option<&Animation<N>>)
        ensures
            match r {
                Some(a) => self.named(name@) == Some(*a),
                None => self.named(name@) is None,
            },
    {
        let wanted = chars_of(name);
        let mut i: usize = 0;
        while i < self.animations.len()
            invariant
                i <= self.animations@.len(),
                wanted@ == name@,
                found_by_name(self.animations@, name@, 0) == found_by_name(
                    self.animations@,
                    name@,
                    i as int,
                ),
            decreases self.animations@.len() - i,
        {
            let here = chars_of(self.animations[i].name.as_str());
            if reads_alike(here.as_slice(), wanted.as_slice()) {
                return Some(&self.animations[i]);
            }
            i = i + 1;
        }
        None
    }

    /// Weighted pick over the candidates whose [`Only`] filter the situation
    /// permits. Probabilities are weights, not percentages, and routinely sum
    /// past 100. Returns `None` for a terminal state.
    pub fn pick_next(&self, list: &[Next<N>], situation: Situation, dice: &mut Dice) -> (r: Option<
        Next<N>,
    >)
        ensures
            r == chosen(list@, situation, old(dice).seed),
            final(dice).seed == seed_after_choice(list@, situation, old(dice).seed),
    {
        reveal(pool_of);
        reveal(chosen);
        reveal(seed_after_choice);
        if list.len() == 0 {
            return None;
        }
        let ghost allowed = |n: Next<N>| situation.allows(n.only);
        let mut pool: Vec<Next<N>> = Vec::new();
        let mut i: usize = 0;
        while i < list.len()
            invariant
                i <= list@.len(),
                allowed == |n: Next<N>| situation.allows(n.only),
                pool@ == list@.take(i as int).filter(allowed),
            decreases list@.len() - i,
        {
            let n: Next<N> = list[i];
            proof {
                reveal(Seq::filter);
                assert(list@.take(i + 1).drop_last() == list@.take(i as int));
            }
            if situation.allows(n.only) {
                pool.push(n);
            }
            i = i + 1;
        }
        assert(list@.take(i as int) == list@);
        if pool.len() == 0 {
            let mut j: usize = 0;
            while j < list.len()
                invariant
                    j <= list@.len(),
                    pool@ == list@.take(j as int),
                decreases list@.len() - j,
            {
                pool.push(list[j]);
                j = j + 1;
                assert(list@.take(j as int) == list@.take(j - 1).push(list@[j - 1]));
            }
            assert(list@.take(j as int) == list@);
        }
        assert(pool@ == pool_of(list@, situation));
        let mut weights: Vec<N> = Vec::new();
        let mut k: usize = 0;
        while k < pool.len()
            invariant
                k <= pool@.len(),
                weights@ == weights_of(pool@).take(k as int),
            decreases pool@.len() - k,
        {
            weights.push(pool[k].probability);
            k = k + 1;
            assert(weights_of(pool@).take(k as int) == weights_of(pool@).take(k - 1).push(
                weights_of(pool@)[k - 1],
            ));
        }
        assert(weights@ == weights_of(pool@));
        let place = draw(&weights, dice);
        Some(pool[place])
    }

    /// The animation to fall into: the one that the gravity transitions lead
    /// to most often, else the one called `fall`.
    #[verifier::opaque]
    pub open spec fn spec_fall_animation(self) -> Option<u32> {
        let falls = falls_from(self.animations@, 0);
        if falls.len() > 0 {
            Some(choose|t: u32| is_favourite(falls, t))
        } else {
            match self.named("fall"@) {
                Some(a) => Some(a.id),
                None => None,
            }
        }
    }

    /// The animation to fall into when support vanishes and the current
    /// animation has nothing to say about it.
    ///
    /// Derived from the data rather than hardcoded: it is whichever animation
    /// the pet's `<gravity>` blocks point at most often.
    pub fn fall_animation(&self) -> (r: Option<u32>)
        ensures
            r == self.spec_fall_animation(),
            falls_from(self.animations@, 0).len() > 0 ==> is_favourite(
                falls_from(self.animations@, 0),
                r->0,
            ),
    {
        reveal(Pet::spec_fall_animation);
        let mut falls: Vec<u32> = Vec::new();
        let mut i: usize = 0;
        while i < self.animations.len()
            invariant
                i <= self.animations@.len(),
                falls_from(self.animations@, 0) == falls@ + falls_from(self.animations@, i as int),
            decreases self.animations@.len() - i,
        {
            let ghost before = falls@;
            let gravity = &self.animations[i].gravity;
            let mut j: usize = 0;
            while j < gravity.len()
                invariant
                    j <= gravity@.len(),
                    falls@ == before + targets(gravity@).take(j as int),
                decreases gravity@.len() - j,
            {
                falls.push(gravity[j].target);
                j = j + 1;
                assert(targets(gravity@).take(j as int) == targets(gravity@).take(j - 1).push(
                    targets(gravity@)[j - 1],
                ));
            }
            assert(targets(gravity@).take(j as int) == targets(gravity@));
            i = i + 1;
        }
        assert(falls@ + falls_from(self.animations@, i as int) == falls@);
        if falls.len() == 0 {
            return match self.by_name("fall") {
                Some(a) => Some(a.id),
                None => None,
            };
        }
        let mut best: u32 = falls[0];
        let mut votes: usize = tally(&falls, best);
        let mut k: usize = 1;
        while k < falls.len()
            invariant
                1 <= k <= falls@.len(),
                falls@.contains(best),
                votes == tally_from(falls@, best, 0),
                forall|j: int| 0 <= j < k ==> outranks(falls@, best, #[trigger] falls@[j]),
            decreases falls@.len() - k,
        {
            let other: u32 = falls[k];
            let count: usize = tally(&falls, other);
            if count > votes || (count == votes && other < best) {
                best = other;
                votes = count;
            }
            k = k + 1;
        }
        proof {
            assert(is_favourite(falls@, best));
            lemma_one_favourite(falls@, best, choose|t: u32| is_favourite(falls@, t));
        }
        Some(best)
    }

    /// The animation to arrive with: where the animation that climbs down
    /// goes first on meeting the ground.
    pub open spec fn spec_landing_animation(self) -> Option<u32> {
        match self.named("vertical_walk_down"@) {
            Some(a) if a.border@.len() > 0 => Some(a.border@[0].target),
            _ => None,
        }
    }

    /// The animation to arrive on level ground with, having climbed onto it:
    /// the climb ends the way climbing down does.
    pub fn landing_animation(&self) -> (r: Option<u32>)
        ensures
            r == self.spec_landing_animation(),
    {
        match self.by_name("vertical_walk_down") {
            Some(a) => if a.border.len() > 0 {
                Some(a.border[0].target)
            } else {
                None
            },
            None => None,
        }
    }

    /// The spawn point picked.
    pub open spec fn spawn_point(self, seed: u64) -> Option<Spawn<N>> {
        if self.spawns@.len() == 0 {
            None
        } else {
            Some(self.spawns@[landed(spawn_weights(self.spawns@), seed)])
        }
    }

    /// The seed after picking a spawn point.
    pub open spec fn seed_after_spawn_point(self, seed: u64) -> u64 {
        if self.spawns@.len() == 0 {
            seed
        } else {
            seed_after_landing(spawn_weights(self.spawns@), seed)
        }
    }

    /// Weighted pick of a spawn point.
    pub fn choose_spawn(&self, dice: &mut Dice) -> (r: Option<&Spawn<N>>)
        ensures
            match r {
                Some(s) => self.spawn_point(old(dice).seed) == Some(*s),
                None => self.spawn_point(old(dice).seed) is None,
            },
            final(dice).seed == self.seed_after_spawn_point(old(dice).seed),
    {
        if self.spawns.len() == 0 {
            return None;
        }
        let mut weights: Vec<N> = Vec::new();
        let mut i: usize = 0;
        while i < self.spawns.len()
            invariant
                i <= self.spawns@.len(),
                weights@ == spawn_weights(self.spawns@).take(i as int),
            decreases self.spawns@.len() - i,
        {
            weights.push(self.spawns[i].probability);
            i = i + 1;
            assert(spawn_weights(self.spawns@).take(i as int) == spawn_weights(self.spawns@).take(
                i - 1,
            ).push(spawn_weights(self.spawns@)[i - 1]));
        }
        assert(weights@ == spawn_weights(self.spawns@));
        let place = draw(&weights, dice);
        Some(&self.spawns[place])
    }
}

// -- what holds of every choice --

/// A choice is always one of the list, and there is none only where the list
/// is empty. Where the situation permits any of the list, it permits the one
/// chosen.
pub proof fn a_choice_keeps_to_the_filter<N: Number>(
    list: Seq<Next<N>>,
    situation: Situation,
    seed: u64,
)
    ensures
        chosen(list, situation, seed) is None <==> list.len() == 0,
        list.len() > 0 ==> list.contains(chosen(list, situation, seed)->0),
        (exists|i: int| 0 <= i < list.len() && situation.allows((#[trigger] list[i]).only))
            ==> situation.allows((chosen(list, situation, seed)->0).only),
{
    broadcast use vstd::seq_lib::group_filter_ensures;

    reveal(pool_of);
    reveal(chosen);
    reveal(landed);
    let allowed = |n: Next<N>| situation.allows(n.only);
    if list.len() > 0 {
        let pool = pool_of(list, situation);
        let weights = weights_of(pool);
        let total = total_from(weights, 0, zero::<N>());
        lemma_landed_within(weights, thrown::<N>(seed).times(total), 0, zero::<N>());
        let k = landed(weights, seed);
        assert(pool[k] == chosen(list, situation, seed)->0);
        let eligible = list.filter(allowed);
        if eligible.len() > 0 {
            assert(allowed(eligible[k]));
            list.lemma_filter_contains_rev(allowed, eligible[k]);
        }
        if exists|i: int| 0 <= i < list.len() && situation.allows((#[trigger] list[i]).only) {
            let i = choose|i: int|
                0 <= i < list.len() && situation.allows((#[trigger] list[i]).only);
            assert(allowed(list[i]));
            assert(eligible.contains(list[i]));
        }
    }
}

/// A sheep always has a spawn point where the pet has any, and it is one of
/// the pet's.
pub proof fn a_spawn_point_is_the_pets<N: Number>(pet: Pet<N>, seed: u64)
    ensures
        pet.spawn_point(seed) is None <==> pet.spawns@.len() == 0,
        pet.spawns@.len() > 0 ==> pet.spawns@.contains(pet.spawn_point(seed)->0),
{
    reveal(landed);
    let weights = spawn_weights(pet.spawns@);
    if pet.spawns@.len() > 0 {
        let total = total_from(weights, 0, zero::<N>());
        lemma_landed_within(weights, thrown::<N>(seed).times(total), 0, zero::<N>());
    }
}

/// The frame that the loop of an animation returns to.
pub open spec fn loop_start<N>(a: Animation<N>) -> int {
    if a.repeat_from < a.frames@.len() {
        a.repeat_from as int
    } else {
        a.frames@.len() - 1
    }
}

/// Every step of an animation with any frames shows one of them, and the
/// frames are first shown in order.
pub proof fn every_step_shows_a_frame<N: Number>(a: Animation<N>, step: u32)
    requires
        a.frames@.len() > 0,
    ensures
        a.frames@.contains(a.spec_frame_at(step)),
        step < a.frames@.len() ==> a.spec_frame_at(step) == a.frames@[step as int],
{
    let n = a.frames@.len() as int;
    let from = if a.repeat_from < n {
        a.repeat_from as int
    } else {
        n - 1
    };
    assert(0 <= (step - from) % (n - from) < n - from) by (nonlinear_arith)
        requires
            n - from > 0,
    ;
    assert(0 <= frame_place(n, a.repeat_from as int, step as int) < n);
}

/// From the frame the loop returns to on, the frames shown repeat; a loop that
/// would return past the last frame returns to the last.
pub proof fn the_frames_loop<N: Number>(a: Animation<N>, step: u32)
    requires
        a.frames@.len() > 0,
        loop_start(a) <= step,
        step + (a.frames@.len() - loop_start(a)) <= u32::MAX,
    ensures
        a.spec_frame_at((step + (a.frames@.len() - loop_start(a))) as u32) == a.spec_frame_at(step),
{
    let n = a.frames@.len() as int;
    let from = loop_start(a);
    let span = n - from;
    vstd::arithmetic::div_mod::lemma_mod_add_multiples_vanish(step - from, span);
    if step < n {
        vstd::arithmetic::div_mod::lemma_small_mod((step - from) as nat, span as nat);
    }
}

/// An animation with any frames takes at least one step.
pub proof fn every_animation_takes_a_step<N: Number>(a: Animation<N>, ctx: Ctx<N>, seed: u64)
    requires
        a.frames@.len() > 0,
    ensures
        a.spec_steps(ctx, seed) >= 1,
{
}

} // verus!

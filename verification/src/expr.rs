//! The tiny arithmetic expression language used throughout the pet file.
//!
//! Values like `<x>`, `<y>`, `<interval>` and `repeat=` are not plain numbers:
//! they are expressions over a handful of screen and sprite identifiers, such
//! as `areaH/2-(randS*areaH/2)/120-imageH`.

use vstd::prelude::*;
use vstd::utf8::encode_utf8;

use crate::dice::{next_seed, thrown, Dice};
use crate::number::{zero, Number};
use crate::text::{is_word, string_of};

verus! {

/// The identifier bindings an expression is evaluated against.
#[derive(Clone, Copy, Debug)]
pub struct Ctx<N> {
    /// Full output size.
    pub screen_w: N,
    pub screen_h: N,
    /// Usable work area, i.e. the screen minus any reserved bar space.
    pub area_w: N,
    pub area_h: N,
    /// Sprite tile size.
    pub image_w: N,
    pub image_h: N,
    /// Current sprite position.
    pub image_x: N,
    pub image_y: N,
    /// Per-sheep constant in 0..100; the sheep's "personality" value.
    pub rand_s: N,
}

/// Why an expression has no value. Places are byte offsets into its text.
#[derive(Clone, Copy, Debug, PartialEq, Eq)]
pub enum ExprError {
    /// Something follows the expression.
    TrailingInput { at: usize },
    DivisionByZero,
    ModuloByZero,
    UnexpectedEnd,
    ExpectedClose,
    UnexpectedCharacter { byte: u8 },
    BadNumber { from: usize, to: usize },
    ExpectedOpenAfterConvert,
    ExpectedCommaInConvert,
    ExpectedCloseInConvert,
    UnsupportedConvert { from: usize, to: usize },
    UnknownIdentifier { from: usize, to: usize },
}

/// What reading part of an expression came to: its value or what was wrong
/// with it, how far the reading got, and the seed the dice were left at.
pub struct Reading<N> {
    pub value: Result<N, ExprError>,
    pub at: int,
    pub seed: u64,
}

/// Is the byte ASCII white space?
pub open spec fn is_blank(b: u8) -> bool {
    b == 0x20 || b == 0x09 || b == 0x0a || b == 0x0c || b == 0x0d
}

/// Is the byte an ASCII digit?
pub open spec fn is_figure(b: u8) -> bool {
    0x30 <= b <= 0x39
}

/// Is the byte an ASCII letter?
pub open spec fn is_letter(b: u8) -> bool {
    (0x41 <= b <= 0x5a) || (0x61 <= b <= 0x7a)
}

/// May the byte stand in a number?
pub open spec fn in_number(b: u8) -> bool {
    is_figure(b) || b == 0x2e
}

/// May the byte stand in a name?
pub open spec fn in_name(b: u8) -> bool {
    is_letter(b) || is_figure(b) || b == 0x5f || b == 0x2e
}

/// The first place at or after `i` that is not white space.
pub open spec fn past_blanks(s: Seq<u8>, i: int) -> int
    decreases s.len() - i,
{
    if 0 <= i < s.len() && is_blank(s[i]) {
        past_blanks(s, i + 1)
    } else {
        i
    }
}

/// The first place at or after `i` that cannot stand in a number.
pub open spec fn past_number(s: Seq<u8>, i: int) -> int
    decreases s.len() - i,
{
    if 0 <= i < s.len() && in_number(s[i]) {
        past_number(s, i + 1)
    } else {
        i
    }
}

/// The first place at or after `i` that cannot stand in a name.
pub open spec fn past_name(s: Seq<u8>, i: int) -> int
    decreases s.len() - i,
{
    if 0 <= i < s.len() && in_name(s[i]) {
        past_name(s, i + 1)
    } else {
        i
    }
}

/// The bytes from `from` to `to` as characters.
pub open spec fn letters(s: Seq<u8>, from: int, to: int) -> Seq<char> {
    Seq::new((to - from) as nat, |k: int| s[from + k] as char)
}

/// What an identifier is bound to. Only `random` is left to chance.
pub open spec fn bound<N: Number>(ctx: Ctx<N>, name: Seq<char>, seed: u64) -> Option<N> {
    if name == "screenW"@ {
        Some(ctx.screen_w)
    } else if name == "screenH"@ {
        Some(ctx.screen_h)
    } else if name == "areaW"@ {
        Some(ctx.area_w)
    } else if name == "areaH"@ {
        Some(ctx.area_h)
    } else if name == "imageW"@ {
        Some(ctx.image_w)
    } else if name == "imageH"@ {
        Some(ctx.image_h)
    } else if name == "imageX"@ {
        Some(ctx.image_x)
    } else if name == "imageY"@ {
        Some(ctx.image_y)
    } else if name == "random"@ {
        Some(thrown::<N>(seed).times(N::whole(100)))
    } else if name == "randS"@ {
        Some(ctx.rand_s)
    } else {
        None
    }
}

/// The seed after an identifier has been looked up.
pub open spec fn seed_after_name(name: Seq<char>, seed: u64) -> u64 {
    if name == "random"@ {
        next_seed(seed)
    } else {
        seed
    }
}

/// Is this one of the whole-number types that `Convert` can be asked for?
pub open spec fn is_whole_type(name: Seq<char>) -> bool {
    name == "System.Int32"@ || name == "System.Int64"@ || name == "System.Int16"@
}

/// A sum: terms joined by `+` and `-`, taken from the left.
pub open spec fn expr_at<N: Number>(s: Seq<u8>, ctx: Ctx<N>, i: int, seed: u64) -> Reading<N>
    decreases s.len() - i, 6int,
{
    let t = term_at(s, ctx, i, seed);
    match t.value {
        Ok(v) if i <= t.at <= s.len() => sum_from(s, ctx, v, t.at, t.seed),
        _ => t,
    }
}

/// The rest of a sum that has come to `v` so far.
pub open spec fn sum_from<N: Number>(
    s: Seq<u8>,
    ctx: Ctx<N>,
    v: N,
    i: int,
    seed: u64,
) -> Reading<N>
    decreases s.len() - i, 1int,
{
    let j = past_blanks(s, i);
    if i <= j < s.len() && (s[j] == 0x2b || s[j] == 0x2d) {
        let t = term_at(s, ctx, j + 1, seed);
        match t.value {
            Ok(w) if j < t.at <= s.len() => {
                let sum = if s[j] == 0x2b {
                    v.plus(w)
                } else {
                    v.minus(w)
                };
                sum_from(s, ctx, sum, t.at, t.seed)
            },
            _ => t,
        }
    } else {
        Reading { value: Ok(v), at: j, seed }
    }
}

/// A product: factors joined by `*`, `/` and `%`, taken from the left.
pub open spec fn term_at<N: Number>(s: Seq<u8>, ctx: Ctx<N>, i: int, seed: u64) -> Reading<N>
    decreases s.len() - i, 5int,
{
    let t = unary_at(s, ctx, i, seed);
    match t.value {
        Ok(v) if i <= t.at <= s.len() => product_from(s, ctx, v, t.at, t.seed),
        _ => t,
    }
}

/// The rest of a product that has come to `v` so far.
pub open spec fn product_from<N: Number>(
    s: Seq<u8>,
    ctx: Ctx<N>,
    v: N,
    i: int,
    seed: u64,
) -> Reading<N>
    decreases s.len() - i, 1int,
{
    let j = past_blanks(s, i);
    if i <= j < s.len() && (s[j] == 0x2a || s[j] == 0x2f || s[j] == 0x25) {
        let t = unary_at(s, ctx, j + 1, seed);
        match t.value {
            Ok(w) if j < t.at <= s.len() => if s[j] == 0x2a {
                product_from(s, ctx, v.times(w), t.at, t.seed)
            } else if w.same(zero()) {
                let why = if s[j] == 0x2f {
                    ExprError::DivisionByZero
                } else {
                    ExprError::ModuloByZero
                };
                Reading { value: Err(why), at: t.at, seed: t.seed }
            } else if s[j] == 0x2f {
                product_from(s, ctx, v.over(w), t.at, t.seed)
            } else {
                product_from(s, ctx, v.modulo(w), t.at, t.seed)
            },
            _ => t,
        }
    } else {
        Reading { value: Ok(v), at: j, seed }
    }
}

/// A factor with any number of signs before it.
pub open spec fn unary_at<N: Number>(s: Seq<u8>, ctx: Ctx<N>, i: int, seed: u64) -> Reading<N>
    decreases s.len() - i, 4int,
{
    let j = past_blanks(s, i);
    if i <= j < s.len() && s[j] == 0x2d {
        let t = unary_at(s, ctx, j + 1, seed);
        match t.value {
            Ok(v) => Reading { value: Ok(v.negated()), at: t.at, seed: t.seed },
            Err(_) => t,
        }
    } else if i <= j < s.len() && s[j] == 0x2b {
        unary_at(s, ctx, j + 1, seed)
    } else {
        atom_at(s, ctx, i, seed)
    }
}

/// A number, a name or an expression in brackets.
pub open spec fn atom_at<N: Number>(s: Seq<u8>, ctx: Ctx<N>, i: int, seed: u64) -> Reading<N>
    decreases s.len() - i, 3int,
{
    let j = past_blanks(s, i);
    if !(i <= j < s.len()) {
        Reading { value: Err(ExprError::UnexpectedEnd), at: j, seed }
    } else if s[j] == 0x28 {
        let e = expr_at(s, ctx, j + 1, seed);
        match e.value {
            Ok(v) => {
                let k = past_blanks(s, e.at);
                if 0 <= k < s.len() && s[k] == 0x29 {
                    Reading { value: Ok(v), at: k + 1, seed: e.seed }
                } else {
                    Reading { value: Err(ExprError::ExpectedClose), at: k, seed: e.seed }
                }
            },
            Err(_) => e,
        }
    } else if in_number(s[j]) {
        let k = past_number(s, j);
        match N::spec_read(letters(s, j, k)) {
            Some(v) => Reading { value: Ok(v), at: k, seed },
            None => Reading {
                value: Err(ExprError::BadNumber { from: j as usize, to: k as usize }),
                at: k,
                seed,
            },
        }
    } else if is_letter(s[j]) || s[j] == 0x5f {
        name_at(s, ctx, j, seed)
    } else {
        Reading { value: Err(ExprError::UnexpectedCharacter { byte: s[j] }), at: j, seed }
    }
}

/// A name: an identifier, or `Convert` with an expression and a type.
pub open spec fn name_at<N: Number>(s: Seq<u8>, ctx: Ctx<N>, i: int, seed: u64) -> Reading<N>
    decreases s.len() - i, 2int,
{
    let end = past_name(s, i);
    let name = letters(s, i, end);
    if name == "Convert"@ {
        let open = past_blanks(s, end);
        if !(i <= open < s.len() && s[open] == 0x28) {
            Reading { value: Err(ExprError::ExpectedOpenAfterConvert), at: open, seed }
        } else {
            let e = expr_at(s, ctx, open + 1, seed);
            match e.value {
                Ok(v) => {
                    let comma = past_blanks(s, e.at);
                    if !(0 <= comma < s.len() && s[comma] == 0x2c) {
                        Reading {
                            value: Err(ExprError::ExpectedCommaInConvert),
                            at: comma,
                            seed: e.seed,
                        }
                    } else {
                        let from = past_blanks(s, comma + 1);
                        let to = past_name(s, from);
                        let close = past_blanks(s, to);
                        if !(0 <= close < s.len() && s[close] == 0x29) {
                            Reading {
                                value: Err(ExprError::ExpectedCloseInConvert),
                                at: close,
                                seed: e.seed,
                            }
                        } else if is_whole_type(letters(s, from, to)) {
                            Reading { value: Ok(v.trunc()), at: close + 1, seed: e.seed }
                        } else {
                            Reading {
                                value: Err(
                                    ExprError::UnsupportedConvert {
                                        from: from as usize,
                                        to: to as usize,
                                    },
                                ),
                                at: close + 1,
                                seed: e.seed,
                            }
                        }
                    }
                },
                Err(_) => e,
            }
        }
    } else {
        let seed2 = seed_after_name(name, seed);
        match bound(ctx, name, seed) {
            Some(v) => Reading { value: Ok(v), at: end, seed: seed2 },
            None => Reading {
                value: Err(ExprError::UnknownIdentifier { from: i as usize, to: end as usize }),
                at: end,
                seed: seed2,
            },
        }
    }
}

/// What a whole text comes to as an expression.
pub open spec fn evaluated<N: Number>(src: Seq<char>, ctx: Ctx<N>, seed: u64) -> Reading<N> {
    let s = encode_utf8(src);
    let e = expr_at(s, ctx, 0, seed);
    match e.value {
        Ok(_) => {
            let end = past_blanks(s, e.at);
            if end != s.len() {
                Reading {
                    value: Err(ExprError::TrailingInput { at: end as usize }),
                    at: end,
                    seed: e.seed,
                }
            } else {
                e
            }
        },
        Err(_) => e,
    }
}

/// What a text comes to as an expression, or `default` where it is malformed
/// or its value is not a proper number.
#[verifier::opaque]
pub open spec fn value_or<N: Number>(src: Seq<char>, ctx: Ctx<N>, default: N, seed: u64) -> N {
    match evaluated(src, ctx, seed).value {
        Ok(v) if v.finite() => v,
        _ => default,
    }
}

/// The seed the dice are left at by evaluating a text.
#[verifier::opaque]
pub open spec fn seed_after<N: Number>(src: Seq<char>, ctx: Ctx<N>, seed: u64) -> u64 {
    evaluated(src, ctx, seed).seed
}

impl<N: Number> Ctx<N> {
    /// What an identifier is bound to.
    pub fn lookup(&self, name: &[char], dice: &mut Dice) -> (r: Option<N>)
        ensures
            r == bound(*self, name@, old(dice).seed),
            final(dice).seed == seed_after_name(name@, old(dice).seed),
    {
        proof {
            lemma_random_is_no_other_name();
        }
        if is_word(name, "screenW") {
            Some(self.screen_w)
        } else if is_word(name, "screenH") {
            Some(self.screen_h)
        } else if is_word(name, "areaW") {
            Some(self.area_w)
        } else if is_word(name, "areaH") {
            Some(self.area_h)
        } else if is_word(name, "imageW") {
            Some(self.image_w)
        } else if is_word(name, "imageH") {
            Some(self.image_h)
        } else if is_word(name, "imageX") {
            Some(self.image_x)
        } else if is_word(name, "imageY") {
            Some(self.image_y)
        } else if is_word(name, "random") {
            let t: N = dice.throw();
            Some(t.times(N::whole(100)))
        } else if is_word(name, "randS") {
            Some(self.rand_s)
        } else {
            None
        }
    }
}

proof fn lemma_random_is_no_other_name()
    ensures
        "random"@ != "screenW"@,
        "random"@ != "screenH"@,
        "random"@ != "areaW"@,
        "random"@ != "areaH"@,
        "random"@ != "imageW"@,
        "random"@ != "imageH"@,
        "random"@ != "imageX"@,
        "random"@ != "imageY"@,
{
    reveal_strlit("random");
    reveal_strlit("screenW");
    reveal_strlit("screenH");
    reveal_strlit("areaW");
    reveal_strlit("areaH");
    reveal_strlit("imageW");
    reveal_strlit("imageH");
    reveal_strlit("imageX");
    reveal_strlit("imageY");
    assert("random"@[0] == 'r');
    assert("screenW"@[0] == 's');
    assert("screenH"@[0] == 's');
    assert("areaW"@[0] == 'a');
    assert("areaH"@[0] == 'a');
    assert("imageW"@[0] == 'i');
    assert("imageH"@[0] == 'i');
    assert("imageX"@[0] == 'i');
    assert("imageY"@[0] == 'i');
}

/// An expression being read.
struct Parser<'a, N> {
    s: &'a [u8],
    i: usize,
    ctx: &'a Ctx<N>,
    dice: Dice,
}

impl<'a, N: Number> Parser<'a, N> {
    /// The place is in the text.
    spec fn placed(self) -> bool {
        self.i <= self.s@.len() <= usize::MAX
    }

    /// Only the place and the dice have moved on, and the place not backwards.
    spec fn follows(self, before: Self) -> bool {
        &&& self.s == before.s
        &&& self.ctx == before.ctx
        &&& before.i <= self.i <= self.s@.len() <= usize::MAX
    }

    /// Reading has come to `r` and left the parser as `reading` says.
    spec fn agrees(self, r: Result<N, ExprError>, reading: Reading<N>) -> bool {
        &&& r == reading.value
        &&& self.i == reading.at
        &&& self.dice.seed == reading.seed
    }

    fn skip_ws(&mut self)
        requires
            old(self).placed(),
        ensures
            final(self).follows(*old(self)),
            final(self).i == past_blanks(old(self).s@, old(self).i as int),
            final(self).dice == old(self).dice,
    {
        while self.i < self.s.len() && (self.s[self.i] == 0x20 || self.s[self.i] == 0x09
            || self.s[self.i] == 0x0a || self.s[self.i] == 0x0c || self.s[self.i] == 0x0d)
            invariant
                self.follows(*old(self)),
                self.dice == old(self).dice,
                past_blanks(self.s@, self.i as int) == past_blanks(
                    old(self).s@,
                    old(self).i as int,
                ),
            decreases self.s@.len() - self.i,
        {
            self.i = self.i + 1;
        }
    }

    /// The next byte past any white space.
    fn peek(&mut self) -> (r: Option<u8>)
        requires
            old(self).placed(),
        ensures
            final(self).follows(*old(self)),
            final(self).i == past_blanks(old(self).s@, old(self).i as int),
            final(self).dice == old(self).dice,
            match r {
                Some(b) => final(self).i < old(self).s@.len() && b == old(
                    self,
                ).s@[final(self).i as int],
                None => final(self).i == old(self).s@.len(),
            },
    {
        self.skip_ws();
        if self.i < self.s.len() {
            Some(self.s[self.i])
        } else {
            None
        }
    }

    /// Takes the next byte past any white space, if it is `c`.
    fn eat(&mut self, c: u8) -> (r: bool)
        requires
            old(self).placed(),
        ensures
            final(self).follows(*old(self)),
            final(self).dice == old(self).dice,
            ({
                let j = past_blanks(old(self).s@, old(self).i as int);
                &&& old(self).i <= j <= old(self).s@.len()
                &&& r == (j < old(self).s@.len() && old(self).s@[j] == c)
                &&& final(self).i == (if r {
                    j + 1
                } else {
                    j
                })
            }),
    {
        if let Some(b) = self.peek() {
            if b == c {
                self.i = self.i + 1;
                return true;
            }
        }
        false
    }

    /// The characters from `from` up to the current place.
    fn token(&self, from: usize) -> (r: Vec<char>)
        requires
            self.placed(),
            from <= self.i,
        ensures
            r@ == letters(self.s@, from as int, self.i as int),
    {
        let mut out: Vec<char> = Vec::new();
        let mut k: usize = from;
        while k < self.i
            invariant
                from <= k <= self.i,
                self.placed(),
                out@ == letters(self.s@, from as int, k as int),
            decreases self.i - k,
        {
            out.push(self.s[k] as char);
            k = k + 1;
            assert(out@ =~= letters(self.s@, from as int, k as int));
        }
        out
    }

    /// Moves past what may stand in a name.
    fn skip_name(&mut self)
        requires
            old(self).placed(),
        ensures
            final(self).follows(*old(self)),
            final(self).i == past_name(old(self).s@, old(self).i as int),
            final(self).dice == old(self).dice,
    {
        while self.i < self.s.len() && name_byte(self.s[self.i])
            invariant
                self.follows(*old(self)),
                self.dice == old(self).dice,
                past_name(self.s@, self.i as int) == past_name(old(self).s@, old(self).i as int),
            decreases self.s@.len() - self.i,
        {
            self.i = self.i + 1;
        }
    }

    fn expr(&mut self) -> (r: Result<N, ExprError>)
        requires
            old(self).placed(),
        ensures
            final(self).follows(*old(self)),
            final(self).agrees(
                r,
                expr_at(old(self).s@, *old(self).ctx, old(self).i as int, old(self).dice.seed),
            ),
        decreases old(self).s@.len() - old(self).i, 6int,
    {
        let ghost whole = expr_at(self.s@, *self.ctx, self.i as int, self.dice.seed);
        let mut v: N = match self.term() {
            Ok(v) => v,
            Err(e) => {
                return Err(e);
            },
        };
        #[verifier::loop_isolation(false)]
        loop
            invariant
                self.follows(*old(self)),
                whole == sum_from(self.s@, *self.ctx, v, self.i as int, self.dice.seed),
            decreases self.s@.len() - self.i,
        {
            let next = self.peek();
            match next {
                Some(b) if b == 0x2b || b == 0x2d => {
                    self.i = self.i + 1;
                    let w: N = match self.term() {
                        Ok(w) => w,
                        Err(e) => {
                            return Err(e);
                        },
                    };
                    if b == 0x2b {
                        v = v.plus(w);
                    } else {
                        v = v.minus(w);
                    }
                },
                _ => {
                    break ;
                },
            }
        }
        Ok(v)
    }

    fn term(&mut self) -> (r: Result<N, ExprError>)
        requires
            old(self).placed(),
        ensures
            final(self).follows(*old(self)),
            final(self).agrees(
                r,
                term_at(old(self).s@, *old(self).ctx, old(self).i as int, old(self).dice.seed),
            ),
            r is Ok ==> final(self).i > old(self).i,
        decreases old(self).s@.len() - old(self).i, 5int,
    {
        let ghost whole = term_at(self.s@, *self.ctx, self.i as int, self.dice.seed);
        let mut v: N = match self.unary() {
            Ok(v) => v,
            Err(e) => {
                return Err(e);
            },
        };
        #[verifier::loop_isolation(false)]
        loop
            invariant
                self.follows(*old(self)),
                self.i > old(self).i,
                whole == product_from(self.s@, *self.ctx, v, self.i as int, self.dice.seed),
            decreases self.s@.len() - self.i,
        {
            let next = self.peek();
            match next {
                Some(b) if b == 0x2a || b == 0x2f || b == 0x25 => {
                    self.i = self.i + 1;
                    let w: N = match self.unary() {
                        Ok(w) => w,
                        Err(e) => {
                            return Err(e);
                        },
                    };
                    if b == 0x2a {
                        v = v.times(w);
                    } else if w.same(zero()) {
                        if b == 0x2f {
                            return Err(ExprError::DivisionByZero);
                        } else {
                            return Err(ExprError::ModuloByZero);
                        }
                    } else if b == 0x2f {
                        v = v.over(w);
                    } else {
                        v = v.modulo(w);
                    }
                },
                _ => {
                    break ;
                },
            }
        }
        Ok(v)
    }

    fn unary(&mut self) -> (r: Result<N, ExprError>)
        requires
            old(self).placed(),
        ensures
            final(self).follows(*old(self)),
            final(self).agrees(
                r,
                unary_at(old(self).s@, *old(self).ctx, old(self).i as int, old(self).dice.seed),
            ),
            r is Ok ==> final(self).i > old(self).i,
        decreases old(self).s@.len() - old(self).i, 4int,
    {
        let ghost start = self.i as int;
        if self.eat(0x2d) {
            return match self.unary() {
                Ok(v) => Ok(v.negated()),
                Err(e) => Err(e),
            };
        }
        proof {
            lemma_past_blanks_again(self.s@, start);
        }
        if self.eat(0x2b) {
            return self.unary();
        }
        assert(atom_at(self.s@, *self.ctx, start, self.dice.seed) == atom_at(
            self.s@,
            *self.ctx,
            self.i as int,
            self.dice.seed,
        ));
        self.atom()
    }

    fn atom(&mut self) -> (r: Result<N, ExprError>)
        requires
            old(self).placed(),
        ensures
            final(self).follows(*old(self)),
            final(self).agrees(
                r,
                atom_at(old(self).s@, *old(self).ctx, old(self).i as int, old(self).dice.seed),
            ),
            r is Ok ==> final(self).i > old(self).i,
        decreases old(self).s@.len() - old(self).i, 3int,
    {
        match self.peek() {
            None => Err(ExprError::UnexpectedEnd),
            Some(b) => if b == 0x28 {
                self.i = self.i + 1;
                match self.expr() {
                    Ok(v) => if self.eat(0x29) {
                        Ok(v)
                    } else {
                        Err(ExprError::ExpectedClose)
                    },
                    Err(e) => Err(e),
                }
            } else if (0x30 <= b && b <= 0x39) || b == 0x2e {
                self.number()
            } else if (0x41 <= b && b <= 0x5a) || (0x61 <= b && b <= 0x7a) || b == 0x5f {
                self.ident()
            } else {
                Err(ExprError::UnexpectedCharacter { byte: b })
            },
        }
    }

    fn number(&mut self) -> (r: Result<N, ExprError>)
        requires
            old(self).i < old(self).s@.len() <= usize::MAX,
            in_number(old(self).s@[old(self).i as int]),
        ensures
            final(self).follows(*old(self)),
            final(self).dice == old(self).dice,
            final(self).i == past_number(old(self).s@, old(self).i as int),
            final(self).i > old(self).i,
            r == (match N::spec_read(
                letters(old(self).s@, old(self).i as int, final(self).i as int),
            ) {
                Some(v) => Ok(v),
                None => Err(ExprError::BadNumber { from: old(self).i, to: final(self).i }),
            }),
    {
        let start: usize = self.i;
        while self.i < self.s.len() && ((0x30 <= self.s[self.i] && self.s[self.i] <= 0x39)
            || self.s[self.i] == 0x2e)
            invariant
                self.follows(*old(self)),
                start == old(self).i,
                start < self.s@.len(),
                in_number(self.s@[start as int]),
                self.dice == old(self).dice,
                past_number(self.s@, self.i as int) == past_number(
                    old(self).s@,
                    old(self).i as int,
                ),
            decreases self.s@.len() - self.i,
        {
            self.i = self.i + 1;
        }
        let text = string_of(self.token(start).as_slice());
        match N::read(text.as_str()) {
            Some(v) => Ok(v),
            None => Err(ExprError::BadNumber { from: start, to: self.i }),
        }
    }

    fn ident(&mut self) -> (r: Result<N, ExprError>)
        requires
            old(self).i < old(self).s@.len() <= usize::MAX,
            in_name(old(self).s@[old(self).i as int]),
        ensures
            final(self).follows(*old(self)),
            final(self).agrees(
                r,
                name_at(old(self).s@, *old(self).ctx, old(self).i as int, old(self).dice.seed),
            ),
            r is Ok ==> final(self).i > old(self).i,
        decreases old(self).s@.len() - old(self).i, 2int,
    {
        let start: usize = self.i;
        self.skip_name();
        proof {
            lemma_past_name_moves(self.s@, start as int);
        }
        let name = self.token(start);

        // Two animations use `Convert(expr, System.Int32)`, which is a
        // truncation.
        if is_word(name.as_slice(), "Convert") {
            if !self.eat(0x28) {
                return Err(ExprError::ExpectedOpenAfterConvert);
            }
            let v: N = match self.expr() {
                Ok(v) => v,
                Err(e) => {
                    return Err(e);
                },
            };
            if !self.eat(0x2c) {
                return Err(ExprError::ExpectedCommaInConvert);
            }
            self.skip_ws();
            let from: usize = self.i;
            self.skip_name();
            let to: usize = self.i;
            let ty = self.token(from);
            if !self.eat(0x29) {
                return Err(ExprError::ExpectedCloseInConvert);
            }
            let t = ty.as_slice();
            if is_word(t, "System.Int32") || is_word(t, "System.Int64") || is_word(
                t,
                "System.Int16",
            ) {
                return Ok(v.trunc());
            }
            return Err(ExprError::UnsupportedConvert { from, to });
        }
        let ctx = self.ctx;
        match ctx.lookup(name.as_slice(), &mut self.dice) {
            Some(v) => Ok(v),
            None => Err(ExprError::UnknownIdentifier { from: start, to: self.i }),
        }
    }
}

fn name_byte(b: u8) -> (r: bool)
    ensures
        r == in_name(b),
{
    (0x41 <= b && b <= 0x5a) || (0x61 <= b && b <= 0x7a) || (0x30 <= b && b <= 0x39) || b == 0x5f
        || b == 0x2e
}

proof fn lemma_past_blanks_again(s: Seq<u8>, i: int)
    requires
        0 <= i <= s.len(),
    ensures
        i <= past_blanks(s, i) <= s.len(),
        past_blanks(s, past_blanks(s, i)) == past_blanks(s, i),
    decreases s.len() - i,
{
    if i < s.len() && is_blank(s[i]) {
        lemma_past_blanks_again(s, i + 1);
    }
}

proof fn lemma_past_name_moves(s: Seq<u8>, i: int)
    requires
        0 <= i <= s.len(),
    ensures
        i <= past_name(s, i) <= s.len(),
        i < s.len() && in_name(s[i]) ==> i < past_name(s, i),
    decreases s.len() - i,
{
    if i < s.len() && in_name(s[i]) {
        lemma_past_name_moves(s, i + 1);
    }
}

/// Evaluates an expression.
pub fn eval<N: Number>(src: &str, ctx: &Ctx<N>, dice: &mut Dice) -> (r: Result<N, ExprError>)
    ensures
        r == evaluated(src@, *ctx, old(dice).seed).value,
        final(dice).seed == seed_after(src@, *ctx, old(dice).seed),
{
    reveal(seed_after);
    let s = src.as_bytes();
    let n: usize = s.len();
    let mut p = Parser { s, i: 0, ctx, dice: *dice };
    assert(p.s@.len() == n);
    let r = p.expr();
    *dice = p.dice;
    match r {
        Ok(v) => {
            p.skip_ws();
            if p.i != p.s.len() {
                return Err(ExprError::TrailingInput { at: p.i });
            }
            Ok(v)
        },
        Err(e) => Err(e),
    }
}

/// Evaluates, falling back to `default` if the expression is malformed.
pub fn eval_or<N: Number>(src: &str, ctx: &Ctx<N>, default: N, dice: &mut Dice) -> (r: N)
    ensures
        r == value_or(src@, *ctx, default, old(dice).seed),
        final(dice).seed == seed_after(src@, *ctx, old(dice).seed),
{
    reveal(value_or);
    match eval(src, ctx, dice) {
        Ok(v) => if v.finite() {
            v
        } else {
            default
        },
        Err(_) => default,
    }
}

} // verus!

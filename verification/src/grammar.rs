//! What expressions mean, apart from how they are read.
//!
//! An expression is a tree. It is written down as text in one way and has one
//! value, and reading the text gives the value of the tree.

use vstd::prelude::*;
use vstd::utf8::{encode_utf8, is_ascii_chars, is_ascii_chars_encode_utf8};

use crate::dice::{next_seed, thrown};
use crate::expr::{
    atom_at, evaluated, expr_at, in_name, in_number, is_blank, letters, name_at, past_blanks,
    past_name, past_number, product_from, seed_after, sum_from, term_at, unary_at, value_or, Ctx,
    ExprError, Reading,
};
use crate::number::{zero, Number};

verus! {

/// The names that an expression knows.
pub enum Word {
    ScreenW,
    ScreenH,
    AreaW,
    AreaH,
    ImageW,
    ImageH,
    ImageX,
    ImageY,
    RandS,
    Random,
}

/// The whole-number types that an expression can ask for.
pub enum Size {
    Int16,
    Int32,
    Int64,
}

/// What two parts of an expression are joined by.
pub enum Join {
    Plus,
    Minus,
    Times,
    Over,
    Modulo,
}

/// An expression.
pub enum Tree {
    Numeral(Seq<char>),
    Named(Word),
    /// In brackets.
    Bracketed(Box<Tree>),
    /// Made whole, through one of the types.
    Whole(Box<Tree>, Size),
    /// With a minus before it.
    Negated(Box<Tree>),
    /// With a plus before it.
    Kept(Box<Tree>),
    Joined(Join, Box<Tree>, Box<Tree>),
}

impl Word {
    /// How the name is spelled.
    pub open spec fn spelled(self) -> Seq<char> {
        match self {
            Word::ScreenW => "screenW"@,
            Word::ScreenH => "screenH"@,
            Word::AreaW => "areaW"@,
            Word::AreaH => "areaH"@,
            Word::ImageW => "imageW"@,
            Word::ImageH => "imageH"@,
            Word::ImageX => "imageX"@,
            Word::ImageY => "imageY"@,
            Word::RandS => "randS"@,
            Word::Random => "random"@,
        }
    }

    /// What the name stands for.
    pub open spec fn meaning<N: Number>(self, ctx: Ctx<N>, seed: u64) -> N {
        match self {
            Word::ScreenW => ctx.screen_w,
            Word::ScreenH => ctx.screen_h,
            Word::AreaW => ctx.area_w,
            Word::AreaH => ctx.area_h,
            Word::ImageW => ctx.image_w,
            Word::ImageH => ctx.image_h,
            Word::ImageX => ctx.image_x,
            Word::ImageY => ctx.image_y,
            Word::RandS => ctx.rand_s,
            Word::Random => thrown::<N>(seed).times(N::whole(100)),
        }
    }
}

impl Size {
    /// How the type is spelled.
    pub open spec fn spelled(self) -> Seq<char> {
        match self {
            Size::Int16 => "System.Int16"@,
            Size::Int32 => "System.Int32"@,
            Size::Int64 => "System.Int64"@,
        }
    }
}

impl Join {
    /// The sign between the two parts.
    pub open spec fn sign(self) -> char {
        match self {
            Join::Plus => '+',
            Join::Minus => '-',
            Join::Times => '*',
            Join::Over => '/',
            Join::Modulo => '%',
        }
    }

    /// How tightly the sign binds.
    pub open spec fn binding(self) -> int {
        match self {
            Join::Plus => 1,
            Join::Minus => 1,
            _ => 2,
        }
    }

    /// What the two values come to. Nothing is divided by zero.
    pub open spec fn of<N: Number>(self, v: N, w: N) -> Result<N, ExprError> {
        match self {
            Join::Plus => Ok(v.plus(w)),
            Join::Minus => Ok(v.minus(w)),
            Join::Times => Ok(v.times(w)),
            Join::Over => if w.same(zero()) {
                Err(ExprError::DivisionByZero)
            } else {
                Ok(v.over(w))
            },
            Join::Modulo => if w.same(zero()) {
                Err(ExprError::ModuloByZero)
            } else {
                Ok(v.modulo(w))
            },
        }
    }
}

impl Tree {
    /// How tightly the expression holds together.
    pub open spec fn binding(self) -> int {
        match self {
            Tree::Joined(join, _, _) => join.binding(),
            Tree::Negated(_) => 3,
            Tree::Kept(_) => 3,
            _ => 4,
        }
    }

    /// Can the expression be written down without further brackets? What
    /// stands on the left of a sign holds together as tightly as the sign
    /// binds, and what stands on its right more tightly: signs that bind
    /// alike are taken from the left.
    pub open spec fn is_written_plainly<N: Number>(self) -> bool
        decreases self,
    {
        match self {
            Tree::Numeral(text) => {
                &&& text.len() > 0
                &&& forall|k: int|
                    0 <= k < text.len() ==> ('0' <= #[trigger] text[k] <= '9' || text[k] == '.')
                &&& N::spec_read(text) is Some
            },
            Tree::Named(_) => true,
            Tree::Bracketed(t) => t.is_written_plainly::<N>(),
            Tree::Whole(t, _) => t.is_written_plainly::<N>(),
            Tree::Negated(t) => t.binding() >= 3 && t.is_written_plainly::<N>(),
            Tree::Kept(t) => t.binding() >= 3 && t.is_written_plainly::<N>(),
            Tree::Joined(join, l, r) => {
                &&& l.binding() >= join.binding()
                &&& r.binding() > join.binding()
                &&& l.is_written_plainly::<N>()
                &&& r.is_written_plainly::<N>()
            },
        }
    }

    /// The text of the expression.
    pub open spec fn written(self) -> Seq<char>
        decreases self,
    {
        match self {
            Tree::Numeral(text) => text,
            Tree::Named(word) => word.spelled(),
            Tree::Bracketed(t) => seq!['('] + t.written() + seq![')'],
            Tree::Whole(t, size) => ("Convert"@ + seq!['(']) + t.written() + (seq![',']
                + size.spelled() + seq![')']),
            Tree::Negated(t) => seq!['-'] + t.written(),
            Tree::Kept(t) => seq!['+'] + t.written(),
            Tree::Joined(join, l, r) => l.written() + seq![join.sign()] + r.written(),
        }
    }

    /// The value of the expression, or the first thing wrong with it, and the
    /// seed that the dice are left at. The left of a sign is worked out
    /// before its right.
    pub open spec fn worth<N: Number>(self, ctx: Ctx<N>, seed: u64) -> (Result<N, ExprError>, u64)
        decreases self,
    {
        match self {
            Tree::Numeral(text) => (Ok(N::spec_read(text)->0), seed),
            Tree::Named(word) => (
                Ok(word.meaning(ctx, seed)),
                if word is Random {
                    next_seed(seed)
                } else {
                    seed
                },
            ),
            Tree::Bracketed(t) => t.worth(ctx, seed),
            Tree::Whole(t, _) => {
                let (v, after) = t.worth(ctx, seed);
                match v {
                    Ok(v) => (Ok(v.trunc()), after),
                    Err(e) => (Err(e), after),
                }
            },
            Tree::Negated(t) => {
                let (v, after) = t.worth(ctx, seed);
                match v {
                    Ok(v) => (Ok(v.negated()), after),
                    Err(e) => (Err(e), after),
                }
            },
            Tree::Kept(t) => t.worth(ctx, seed),
            Tree::Joined(join, l, r) => {
                let (v, between) = l.worth(ctx, seed);
                match v {
                    Ok(v) => {
                        let (w, after) = r.worth(ctx, between);
                        match w {
                            Ok(w) => (join.of(v, w), after),
                            Err(e) => (Err(e), after),
                        }
                    },
                    Err(e) => (Err(e), between),
                }
            },
        }
    }
}

// -- text in bytes --

/// Does the text stand at place `i`?
spec fn says(s: Seq<u8>, i: int, text: Seq<char>) -> bool {
    &&& 0 <= i
    &&& i + text.len() <= s.len()
    &&& forall|k: int|
        0 <= k < text.len() ==> '\0' <= #[trigger] text[k] <= '\u{7f}' && s[i + k]
            == text[k] as u8
}

proof fn lemma_says_parts(s: Seq<u8>, i: int, a: Seq<char>, b: Seq<char>)
    requires
        says(s, i, a + b),
    ensures
        says(s, i, a),
        says(s, i + a.len(), b),
{
    assert forall|k: int| 0 <= k < a.len() implies '\0' <= #[trigger] a[k] <= '\u{7f}' && s[i + k]
        == a[k] as u8 by {
        assert((a + b)[k] == a[k]);
    }
    assert forall|k: int| 0 <= k < b.len() implies '\0' <= #[trigger] b[k] <= '\u{7f}' && s[(i
        + a.len()) + k] == b[k] as u8 by {
        assert((a + b)[a.len() + k] == b[k]);
        assert(s[i + (a.len() + k)] == b[k] as u8);
    }
}

proof fn lemma_says_one(s: Seq<u8>, i: int, c: char)
    requires
        says(s, i, seq![c]),
    ensures
        i < s.len(),
        s[i] == c as u8,
{
    assert(seq![c][0] == c);
    assert(s[i + 0] == c as u8);
}

proof fn lemma_letters(s: Seq<u8>, i: int, text: Seq<char>)
    requires
        says(s, i, text),
    ensures
        letters(s, i, i + text.len()) == text,
{
    assert forall|k: int| 0 <= k < text.len() implies letters(s, i, i + text.len())[k]
        == #[trigger] text[k] by {
        let c = text[k];
        assert('\0' <= c <= '\u{7f}' && s[i + k] == c as u8);
        assert((c as u8) as char == c);
    }
    assert(letters(s, i, i + text.len()) =~= text);
}

/// Does something stand at place `j` that ends what is before it: a sign, a
/// closing bracket, a comma or nothing at all?
spec fn ends_at(s: Seq<u8>, j: int) -> bool {
    j == s.len() || (0 <= j < s.len() && (s[j] == 0x2b || s[j] == 0x2d || s[j] == 0x2a || s[j]
        == 0x2f || s[j] == 0x25 || s[j] == 0x29 || s[j] == 0x2c))
}

/// Does it end a whole product too?
spec fn ends_product_at(s: Seq<u8>, j: int) -> bool {
    j == s.len() || (0 <= j < s.len() && (s[j] == 0x2b || s[j] == 0x2d || s[j] == 0x29 || s[j]
        == 0x2c))
}

proof fn lemma_number_ends(s: Seq<u8>, i: int, j: int)
    requires
        0 <= i <= j <= s.len(),
        ends_at(s, j),
        forall|k: int| i <= k < j ==> in_number(#[trigger] s[k]),
    ensures
        past_number(s, i) == j,
    decreases j - i,
{
    if i < j {
        assert(in_number(s[i]));
        lemma_number_ends(s, i + 1, j);
    }
}

proof fn lemma_name_ends(s: Seq<u8>, i: int, j: int)
    requires
        0 <= i <= j <= s.len(),
        j == s.len() || !in_name(s[j]),
        forall|k: int| i <= k < j ==> in_name(#[trigger] s[k]),
    ensures
        past_name(s, i) == j,
    decreases j - i,
{
    if i < j {
        assert(in_name(s[i]));
        lemma_name_ends(s, i + 1, j);
    }
}

/// May the character stand in a name?
spec fn is_name_char(c: char) -> bool {
    ('A' <= c <= 'Z') || ('a' <= c <= 'z') || ('0' <= c <= '9') || c == '_' || c == '.'
}

proof fn lemma_name_is_read(s: Seq<u8>, i: int, text: Seq<char>)
    requires
        says(s, i, text),
        i + text.len() == s.len() || !in_name(s[i + text.len()]),
        forall|k: int| 0 <= k < text.len() ==> is_name_char(#[trigger] text[k]),
    ensures
        past_name(s, i) == i + text.len(),
        letters(s, i, past_name(s, i)) == text,
{
    let j = i + text.len();
    assert forall|k: int| i <= k < j implies in_name(#[trigger] s[k]) by {
        let c = text[k - i];
        assert(is_name_char(c));
        assert(s[i + (k - i)] == c as u8);
    }
    lemma_name_ends(s, i, j);
    lemma_letters(s, i, text);
}

proof fn lemma_words()
    ensures
        forall|w: Word, k: int|
            0 <= k < w.spelled().len() ==> is_name_char(#[trigger] w.spelled()[k]),
        forall|w: Word| (#[trigger] w.spelled()).len() > 0 && 'a' <= w.spelled()[0] <= 'z',
        forall|w: Word| #[trigger] w.spelled() != "Convert"@,
        forall|w: Word, v: Word| w != v ==> #[trigger] w.spelled() != #[trigger] v.spelled(),
{
    reveal_strlit("screenW");
    reveal_strlit("screenH");
    reveal_strlit("areaW");
    reveal_strlit("areaH");
    reveal_strlit("imageW");
    reveal_strlit("imageH");
    reveal_strlit("imageX");
    reveal_strlit("imageY");
    reveal_strlit("randS");
    reveal_strlit("random");
    reveal_strlit("Convert");
    assert("Convert"@[0] == 'C');
    assert forall|w: Word, v: Word| w != v implies #[trigger] w.spelled()
        != #[trigger] v.spelled() by {
        let (a, b) = (w.spelled(), v.spelled());
        if a == b {
            assert(a.len() == b.len());
            assert(a[0] == b[0]);
            assert(a[a.len() - 1] == b[b.len() - 1]);
        }
    }
}

proof fn lemma_sizes()
    ensures
        forall|z: Size, k: int|
            0 <= k < z.spelled().len() ==> is_name_char(#[trigger] z.spelled()[k]),
        forall|z: Size| (#[trigger] z.spelled()).len() > 0,
        forall|k: int| 0 <= k < "Convert"@.len() ==> is_name_char(#[trigger] "Convert"@[k]),
        "Convert"@.len() > 0,
        "Convert"@[0] == 'C',
{
    reveal_strlit("System.Int16");
    reveal_strlit("System.Int32");
    reveal_strlit("System.Int64");
    reveal_strlit("Convert");
}

// -- reading --

/// Did reading come to the value, at the place and the seed? Where there is
/// something wrong, the place does not matter.
spec fn comes_to<N>(r: Reading<N>, value: (Result<N, ExprError>, u64), at: int) -> bool {
    &&& r.value == value.0
    &&& r.seed == value.1
    &&& value.0 is Ok ==> r.at == at
}

proof fn lemma_atom<N: Number>(t: Tree, s: Seq<u8>, ctx: Ctx<N>, i: int, seed: u64)
    requires
        t.is_written_plainly::<N>(),
        t.binding() == 4,
        says(s, i, t.written()),
        ends_at(s, i + t.written().len()),
    ensures
        comes_to(atom_at(s, ctx, i, seed), t.worth(ctx, seed), i + t.written().len()),
        t.written().len() > 0,
        s[i] != 0x2d && s[i] != 0x2b && !is_blank(s[i]),
    decreases t, 1int,
{
    let text = t.written();
    let j = i + text.len();
    match t {
        Tree::Numeral(digits) => {
            assert forall|k: int| i <= k < j implies in_number(#[trigger] s[k]) by {
                let c = digits[k - i];
                assert('0' <= c <= '9' || c == '.');
                assert(s[i + (k - i)] == c as u8);
            }
            lemma_number_ends(s, i, j);
            lemma_letters(s, i, digits);
            assert(in_number(s[i]));
        },
        Tree::Named(word) => {
            lemma_words();
            lemma_name_is_read(s, i, word.spelled());
            assert(s[i + 0] == word.spelled()[0] as u8);
            lemma_name_means(word, s, ctx, i, seed);
        },
        Tree::Bracketed(inner) => {
            let (a, b, c) = (seq!['('], inner.written(), seq![')']);
            lemma_says_parts(s, i, a + b, c);
            lemma_says_parts(s, i, a, b);
            lemma_says_one(s, i, '(');
            let k = i + 1 + b.len();
            lemma_says_one(s, k, ')');
            lemma_sum(*inner, s, ctx, i + 1, seed);
        },
        Tree::Whole(inner, size) => {
            lemma_whole(*inner, size, s, ctx, i, seed);
        },
        _ => {},
    }
}

proof fn lemma_name_means<N: Number>(word: Word, s: Seq<u8>, ctx: Ctx<N>, i: int, seed: u64)
    requires
        0 <= i,
        past_name(s, i) == i + word.spelled().len(),
        letters(s, i, past_name(s, i)) == word.spelled(),
    ensures
        comes_to(
            name_at(s, ctx, i, seed),
            Tree::Named(word).worth(ctx, seed),
            i + word.spelled().len(),
        ),
{
    lemma_words();
    assert(Word::ScreenW.spelled() == "screenW"@);
    assert(Word::ScreenH.spelled() == "screenH"@);
    assert(Word::AreaW.spelled() == "areaW"@);
    assert(Word::AreaH.spelled() == "areaH"@);
    assert(Word::ImageW.spelled() == "imageW"@);
    assert(Word::ImageH.spelled() == "imageH"@);
    assert(Word::ImageX.spelled() == "imageX"@);
    assert(Word::ImageY.spelled() == "imageY"@);
    assert(Word::RandS.spelled() == "randS"@);
    assert(Word::Random.spelled() == "random"@);
}

proof fn lemma_whole<N: Number>(
    inner: Tree,
    size: Size,
    s: Seq<u8>,
    ctx: Ctx<N>,
    i: int,
    seed: u64,
)
    requires
        inner.is_written_plainly::<N>(),
        says(s, i, Tree::Whole(Box::new(inner), size).written()),
    ensures
        comes_to(
            atom_at(s, ctx, i, seed),
            Tree::Whole(Box::new(inner), size).worth(ctx, seed),
            i + Tree::Whole(Box::new(inner), size).written().len(),
        ),
        s[i] != 0x2d && s[i] != 0x2b && !is_blank(s[i]),
    decreases inner, 5int,
{
    lemma_sizes();
    let t = Tree::Whole(Box::new(inner), size);
    let (a, b) = ("Convert"@ + seq!['('], inner.written());
    let c = seq![','] + size.spelled() + seq![')'];
    lemma_says_parts(s, i, a + b, c);
    lemma_says_parts(s, i, a, b);
    lemma_says_parts(s, i, "Convert"@, seq!['(']);
    let open = i + "Convert"@.len();
    lemma_says_one(s, open, '(');
    lemma_name_is_read(s, i, "Convert"@);
    assert(s[i + 0] == "Convert"@[0] as u8);
    let comma = open + 1 + b.len();
    lemma_says_parts(s, comma, seq![','] + size.spelled(), seq![')']);
    lemma_says_parts(s, comma, seq![','], size.spelled());
    lemma_says_one(s, comma, ',');
    let from = comma + 1;
    let close = from + size.spelled().len();
    lemma_says_one(s, close, ')');
    lemma_name_is_read(s, from, size.spelled());
    assert(is_name_char(size.spelled()[0]));
    assert(s[from + 0] == size.spelled()[0] as u8);
    lemma_sum(inner, s, ctx, open + 1, seed);
    assert(past_blanks(s, from) == from);
    assert(past_blanks(s, close) == close);
    assert(t.written().len() == close + 1 - i);
}

proof fn lemma_signed<N: Number>(t: Tree, s: Seq<u8>, ctx: Ctx<N>, i: int, seed: u64)
    requires
        t.is_written_plainly::<N>(),
        t.binding() >= 3,
        says(s, i, t.written()),
        ends_at(s, i + t.written().len()),
    ensures
        comes_to(unary_at(s, ctx, i, seed), t.worth(ctx, seed), i + t.written().len()),
        t.written().len() > 0,
    decreases t, 2int,
{
    match t {
        Tree::Negated(inner) => {
            lemma_says_parts(s, i, seq!['-'], inner.written());
            lemma_says_one(s, i, '-');
            lemma_signed(*inner, s, ctx, i + 1, seed);
        },
        Tree::Kept(inner) => {
            lemma_says_parts(s, i, seq!['+'], inner.written());
            lemma_says_one(s, i, '+');
            lemma_signed(*inner, s, ctx, i + 1, seed);
        },
        _ => {
            lemma_atom(t, s, ctx, i, seed);
        },
    }
}

proof fn lemma_product<N: Number>(t: Tree, s: Seq<u8>, ctx: Ctx<N>, i: int, seed: u64)
    requires
        t.is_written_plainly::<N>(),
        t.binding() >= 2,
        says(s, i, t.written()),
        ends_at(s, i + t.written().len()),
    ensures
        t.written().len() > 0,
        match t.worth(ctx, seed).0 {
            Ok(v) => term_at(s, ctx, i, seed) == product_from(
                s,
                ctx,
                v,
                i + t.written().len(),
                t.worth(ctx, seed).1,
            ),
            Err(e) => comes_to(term_at(s, ctx, i, seed), t.worth(ctx, seed), 0),
        },
    decreases t, 3int,
{
    match t {
        Tree::Joined(join, l, r) => {
            let (a, b, c) = (l.written(), seq![join.sign()], r.written());
            lemma_says_parts(s, i, a + b, c);
            lemma_says_parts(s, i, a, b);
            let k = i + a.len();
            lemma_says_one(s, k, join.sign());
            lemma_product(*l, s, ctx, i, seed);
            let (v, between) = l.worth(ctx, seed);
            assert(past_blanks(s, k) == k);
            if let Ok(v) = v {
                lemma_signed(*r, s, ctx, k + 1, between);
            }
        },
        _ => {
            lemma_signed(t, s, ctx, i, seed);
        },
    }
}

proof fn lemma_sum<N: Number>(t: Tree, s: Seq<u8>, ctx: Ctx<N>, i: int, seed: u64)
    requires
        t.is_written_plainly::<N>(),
        says(s, i, t.written()),
        ends_product_at(s, i + t.written().len()),
    ensures
        t.written().len() > 0,
        match t.worth(ctx, seed).0 {
            Ok(v) => expr_at(s, ctx, i, seed) == sum_from(
                s,
                ctx,
                v,
                i + t.written().len(),
                t.worth(ctx, seed).1,
            ),
            Err(e) => comes_to(expr_at(s, ctx, i, seed), t.worth(ctx, seed), 0),
        },
    decreases t, 4int,
{
    let j = i + t.written().len();
    if t.binding() >= 2 {
        lemma_product(t, s, ctx, i, seed);
        assert(past_blanks(s, j) == j);
    } else if let Tree::Joined(join, l, r) = t {
        let (a, b, c) = (l.written(), seq![join.sign()], r.written());
        lemma_says_parts(s, i, a + b, c);
        lemma_says_parts(s, i, a, b);
        let k = i + a.len();
        lemma_says_one(s, k, join.sign());
        lemma_sum(*l, s, ctx, i, seed);
        let (v, between) = l.worth(ctx, seed);
        assert(past_blanks(s, k) == k);
        assert(past_blanks(s, j) == j);
        if let Ok(v) = v {
            lemma_product(*r, s, ctx, k + 1, between);
        }
    }
}

proof fn lemma_ascii_parts(a: Seq<char>, b: Seq<char>)
    requires
        is_ascii_chars(a),
        is_ascii_chars(b),
    ensures
        is_ascii_chars(a + b),
{
    assert forall|k: int| 0 <= k < (a + b).len() implies '\0' <= #[trigger] (a + b)[k]
        <= '\u{7f}' by {
        if k < a.len() {
            assert((a + b)[k] == a[k]);
        } else {
            assert((a + b)[k] == b[k - a.len()]);
        }
    }
}

proof fn lemma_written_is_ascii<N: Number>(t: Tree)
    requires
        t.is_written_plainly::<N>(),
    ensures
        is_ascii_chars(t.written()),
    decreases t,
{
    lemma_words();
    lemma_sizes();
    match t {
        Tree::Numeral(digits) => {
            assert forall|k: int| 0 <= k < digits.len() implies '\0' <= #[trigger] digits[k]
                <= '\u{7f}' by {
                assert('0' <= digits[k] <= '9' || digits[k] == '.');
            }
        },
        Tree::Named(word) => {
            lemma_names_are_ascii(word.spelled());
        },
        Tree::Bracketed(inner) => {
            lemma_written_is_ascii::<N>(*inner);
            lemma_ascii_parts(seq!['('], inner.written());
            lemma_ascii_parts(seq!['('] + inner.written(), seq![')']);
        },
        Tree::Whole(inner, size) => {
            lemma_written_is_ascii::<N>(*inner);
            lemma_names_are_ascii("Convert"@);
            lemma_names_are_ascii(size.spelled());
            let a = "Convert"@ + seq!['('];
            let c = seq![','] + size.spelled() + seq![')'];
            lemma_ascii_parts("Convert"@, seq!['(']);
            lemma_ascii_parts(a, inner.written());
            lemma_ascii_parts(seq![','], size.spelled());
            lemma_ascii_parts(seq![','] + size.spelled(), seq![')']);
            lemma_ascii_parts(a + inner.written(), c);
        },
        Tree::Negated(inner) => {
            lemma_written_is_ascii::<N>(*inner);
            lemma_ascii_parts(seq!['-'], inner.written());
        },
        Tree::Kept(inner) => {
            lemma_written_is_ascii::<N>(*inner);
            lemma_ascii_parts(seq!['+'], inner.written());
        },
        Tree::Joined(join, l, r) => {
            lemma_written_is_ascii::<N>(*l);
            lemma_written_is_ascii::<N>(*r);
            lemma_ascii_parts(l.written(), seq![join.sign()]);
            lemma_ascii_parts(l.written() + seq![join.sign()], r.written());
        },
    }
}

proof fn lemma_names_are_ascii(text: Seq<char>)
    requires
        forall|k: int| 0 <= k < text.len() ==> is_name_char(#[trigger] text[k]),
    ensures
        is_ascii_chars(text),
{
    assert forall|k: int| 0 <= k < text.len() implies '\0' <= #[trigger] text[k] <= '\u{7f}' by {
        assert(is_name_char(text[k]));
    }
}

/// Reading the text of an expression gives the value of the expression: signs
/// bind as they do everywhere and are taken from the left, a difference is a
/// difference whichever of its sides is greater, names stand for what they
/// say, and dividing by zero is all that can go wrong.
pub proof fn an_expression_is_worth_what_it_says<N: Number>(t: Tree, ctx: Ctx<N>, seed: u64)
    requires
        t.is_written_plainly::<N>(),
    ensures
        evaluated(t.written(), ctx, seed).value == t.worth(ctx, seed).0,
        seed_after(t.written(), ctx, seed) == t.worth(ctx, seed).1,
{
    reveal(seed_after);
    let text = t.written();
    let s = encode_utf8(text);
    lemma_written_is_ascii::<N>(t);
    is_ascii_chars_encode_utf8(text);
    assert(says(s, 0, text));
    lemma_sum(t, s, ctx, 0, seed);
    assert(past_blanks(s, s.len() as int) == s.len());
}

/// Where a pet file gives an expression, the sheep goes by its value, or by
/// the default where there is something wrong with it or the value is no
/// proper number.
pub proof fn a_value_is_what_the_expression_is_worth<N: Number>(
    t: Tree,
    ctx: Ctx<N>,
    default: N,
    seed: u64,
)
    requires
        t.is_written_plainly::<N>(),
    ensures
        value_or(t.written(), ctx, default, seed) == match t.worth(ctx, seed).0 {
            Ok(v) => if v.finite() {
                v
            } else {
                default
            },
            Err(_) => default,
        },
{
    reveal(value_or);
    an_expression_is_worth_what_it_says(t, ctx, seed);
}

/// An expression with anything left over behind it, be it no more than a
/// closing bracket, is none.
pub proof fn nothing_may_follow_an_expression<N: Number>(
    t: Tree,
    rest: Seq<char>,
    ctx: Ctx<N>,
    seed: u64,
)
    requires
        t.is_written_plainly::<N>(),
        is_ascii_chars(rest),
    ensures
        evaluated(t.written() + seq![')'] + rest, ctx, seed).value is Err,
        evaluated(t.written() + seq![','] + rest, ctx, seed).value is Err,
{
    lemma_leftover(t, ')', rest, ctx, seed);
    lemma_leftover(t, ',', rest, ctx, seed);
}

proof fn lemma_leftover<N: Number>(t: Tree, c: char, rest: Seq<char>, ctx: Ctx<N>, seed: u64)
    requires
        t.is_written_plainly::<N>(),
        is_ascii_chars(rest),
        c == ')' || c == ',',
    ensures
        evaluated(t.written() + seq![c] + rest, ctx, seed).value is Err,
{
    let (head, tail) = (t.written(), seq![c] + rest);
    let text = head + seq![c] + rest;
    let n = head.len() as int;
    lemma_written_is_ascii::<N>(t);
    lemma_ascii_parts(head, seq![c]);
    lemma_ascii_parts(head + seq![c], rest);
    assert(text == head + tail);
    let s = encode_utf8(text);
    is_ascii_chars_encode_utf8(text);
    assert(says(s, 0, text));
    lemma_says_parts(s, 0, head, tail);
    assert(text[n] == c);
    assert(s[0 + n] == c as u8);
    lemma_sum(t, s, ctx, 0, seed);
    assert(past_blanks(s, n) == n);
}

/// A bracket that is opened has to be closed: a comma in its stead, or nothing
/// at all, is an error.
pub proof fn a_bracket_has_to_be_closed<N: Number>(
    t: Tree,
    rest: Seq<char>,
    ctx: Ctx<N>,
    seed: u64,
)
    requires
        t.is_written_plainly::<N>(),
        is_ascii_chars(rest),
    ensures
        evaluated(seq!['('] + t.written(), ctx, seed).value is Err,
        evaluated(seq!['('] + t.written() + seq![','] + rest, ctx, seed).value is Err,
{
    let head = t.written();
    lemma_written_is_ascii::<N>(t);
    lemma_ascii_parts(seq!['('], head);
    let open = seq!['('] + head;
    assert(open.take(open.len() as int) == open);
    lemma_unclosed(t, open, ctx, seed);
    let (tail, text) = (seq![','] + rest, seq!['('] + head + seq![','] + rest);
    lemma_ascii_parts(open, seq![',']);
    lemma_ascii_parts(open + seq![','], rest);
    assert(text == open + tail);
    assert(text.take(open.len() as int) == open);
    assert(text[open.len() as int] == ',');
    lemma_unclosed(t, text, ctx, seed);
}

proof fn lemma_unclosed<N: Number>(t: Tree, text: Seq<char>, ctx: Ctx<N>, seed: u64)
    requires
        t.is_written_plainly::<N>(),
        is_ascii_chars(text),
        ({
            let n = t.written().len() + 1;
            &&& n <= text.len()
            &&& text.take(n as int) == seq!['('] + t.written()
            &&& n < text.len() ==> text[n as int] == ','
        }),
    ensures
        evaluated(text, ctx, seed).value is Err,
{
    let n = t.written().len() as int + 1;
    let s = encode_utf8(text);
    is_ascii_chars_encode_utf8(text);
    assert forall|k: int| 0 <= k < text.len() implies '\0' <= #[trigger] text[k] <= '\u{7f}' && s[0
        + k] == text[k] as u8 by {}
    assert(says(s, 0, text));
    assert(text == text.take(n) + text.skip(n));
    lemma_says_parts(s, 0, text.take(n), text.skip(n));
    lemma_says_parts(s, 0, seq!['('], t.written());
    lemma_says_one(s, 0, '(');
    if n < s.len() {
        assert(s[0 + n] == ',' as u8);
    }
    assert(past_blanks(s, 0) == 0);
    assert(past_blanks(s, n) == n);
    lemma_sum(t, s, ctx, 1, seed);
    assert(atom_at(s, ctx, 0, seed).value is Err);
    assert(unary_at(s, ctx, 0, seed).value is Err);
    assert(term_at(s, ctx, 0, seed).value is Err);
    assert(expr_at(s, ctx, 0, seed).value is Err);
}

/// Is it white space?
pub open spec fn is_gap(b: u8) -> bool {
    b == ' ' as u8 || b == '\t' as u8 || b == '\n' as u8 || b == '\r' as u8 || b == 0x0c
}

/// White space before a number, a name, a bracket or a sign is passed over: it
/// is as if the expression were read from behind it.
pub proof fn white_space_is_passed_over<N: Number>(
    s: Seq<u8>,
    ctx: Ctx<N>,
    v: N,
    i: int,
    seed: u64,
)
    requires
        0 <= i < s.len(),
        is_gap(s[i]),
    ensures
        atom_at(s, ctx, i, seed) == atom_at(s, ctx, i + 1, seed),
        unary_at(s, ctx, i, seed) == unary_at(s, ctx, i + 1, seed),
        sum_from(s, ctx, v, i, seed) == sum_from(s, ctx, v, i + 1, seed),
        product_from(s, ctx, v, i, seed) == product_from(s, ctx, v, i + 1, seed),
        past_blanks(s, i) == past_blanks(s, i + 1),
{
    lemma_blanks_go_on(s, i + 1);
    assert(past_blanks(s, i) == past_blanks(s, i + 1));
}

proof fn lemma_blanks_go_on(s: Seq<u8>, i: int)
    requires
        0 <= i <= s.len(),
    ensures
        i <= past_blanks(s, i) <= s.len(),
    decreases s.len() - i,
{
    if i < s.len() {
        lemma_blanks_go_on(s, i + 1);
    }
}

/// Is the text a plain numeral that stands for `v`?
pub open spec fn stands_for<N: Number>(text: Seq<char>, v: N) -> bool {
    &&& text.len() > 0
    &&& forall|k: int| 0 <= k < text.len() ==> ('0' <= #[trigger] text[k] <= '9' || text[k] == '.')
    &&& N::spec_read(text) == Some(v)
}

/// Two numerals with a sign between them come to what the numbers do with
/// their two values, whichever is the greater.
pub proof fn two_numerals_are_reckoned<N: Number>(
    a: Seq<char>,
    b: Seq<char>,
    v: N,
    w: N,
    ctx: Ctx<N>,
    seed: u64,
)
    requires
        stands_for(a, v),
        stands_for(b, w),
    ensures
        evaluated(a + seq!['+'] + b, ctx, seed).value == Ok::<N, ExprError>(v.plus(w)),
        evaluated(a + seq!['-'] + b, ctx, seed).value == Ok::<N, ExprError>(v.minus(w)),
        evaluated(a + seq!['*'] + b, ctx, seed).value == Ok::<N, ExprError>(v.times(w)),
        !w.same(zero()) ==> evaluated(a + seq!['/'] + b, ctx, seed).value == Ok::<N, ExprError>(
            v.over(w),
        ),
        !w.same(zero()) ==> evaluated(a + seq!['%'] + b, ctx, seed).value == Ok::<N, ExprError>(
            v.modulo(w),
        ),
        w.same(zero()) ==> evaluated(a + seq!['/'] + b, ctx, seed).value == Err::<N, ExprError>(
            ExprError::DivisionByZero,
        ),
        w.same(zero()) ==> evaluated(a + seq!['%'] + b, ctx, seed).value == Err::<N, ExprError>(
            ExprError::ModuloByZero,
        ),
        evaluated(seq!['-'] + a, ctx, seed).value == Ok::<N, ExprError>(v.negated()),
        evaluated(a, ctx, seed).value == Ok::<N, ExprError>(v),
{
    let (l, r) = (Tree::Numeral(a), Tree::Numeral(b));
    assert(l.is_written_plainly::<N>() && r.is_written_plainly::<N>());
    lemma_pair(Join::Plus, l, r, ctx, seed);
    lemma_pair(Join::Minus, l, r, ctx, seed);
    lemma_pair(Join::Times, l, r, ctx, seed);
    lemma_pair(Join::Over, l, r, ctx, seed);
    lemma_pair(Join::Modulo, l, r, ctx, seed);
    let minus = Tree::Negated(Box::new(l));
    assert(minus.is_written_plainly::<N>());
    an_expression_is_worth_what_it_says(minus, ctx, seed);
    an_expression_is_worth_what_it_says(l, ctx, seed);
}

proof fn lemma_pair<N: Number>(join: Join, l: Tree, r: Tree, ctx: Ctx<N>, seed: u64)
    requires
        l is Numeral,
        r is Numeral,
        l.is_written_plainly::<N>(),
        r.is_written_plainly::<N>(),
    ensures
        evaluated(l->Numeral_0 + seq![join.sign()] + r->Numeral_0, ctx, seed).value == join.of(
            N::spec_read(l->Numeral_0)->0,
            N::spec_read(r->Numeral_0)->0,
        ),
{
    let t = Tree::Joined(join, Box::new(l), Box::new(r));
    assert(t.is_written_plainly::<N>());
    assert(l.written() == l->Numeral_0);
    assert(r.written() == r->Numeral_0);
    assert(t.written() == l->Numeral_0 + seq![join.sign()] + r->Numeral_0);
    an_expression_is_worth_what_it_says(t, ctx, seed);
    let (v, between) = l.worth(ctx, seed);
    let (w, after) = r.worth(ctx, between);
    assert(t.worth(ctx, seed) == (join.of(v->Ok_0, w->Ok_0), after));
}

} // verus!

//! Standard base64, which is how pet files embed their sprite sheet.

use vstd::prelude::*;

use crate::text::chars_of;

verus! {

/// What a character of the alphabet stands for.
pub open spec fn digit_of(c: char) -> Option<u8> {
    if 'A' <= c <= 'Z' {
        Some((c as u32 - 'A' as u32) as u8)
    } else if 'a' <= c <= 'z' {
        Some((c as u32 - 'a' as u32 + 26) as u8)
    } else if '0' <= c <= '9' {
        Some((c as u32 - '0' as u32 + 52) as u8)
    } else if c == '+' {
        Some(62)
    } else if c == '/' {
        Some(63)
    } else {
        None
    }
}

/// Is the character ASCII white space?
pub open spec fn is_gap(c: char) -> bool {
    c == ' ' || c == '\t' || c == '\n' || c == '\u{c}' || c == '\r'
}

/// The digits `head` and then those of `rest`, if there are any to follow.
pub open spec fn followed(head: Seq<u8>, rest: Option<Seq<u8>>) -> Option<Seq<u8>> {
    match rest {
        Some(rest) => Some(head + rest),
        None => None,
    }
}

/// The digits from place `i` on, up to the padding. White space is passed
/// over; anything else is no base64.
pub open spec fn digits_from(s: Seq<char>, i: int) -> Option<Seq<u8>>
    decreases s.len() - i,
{
    if 0 <= i < s.len() {
        if s[i] == '=' {
            Some(seq![])
        } else if is_gap(s[i]) {
            digits_from(s, i + 1)
        } else {
            match digit_of(s[i]) {
                Some(d) => followed(seq![d], digits_from(s, i + 1)),
                None => None,
            }
        }
    } else {
        Some(seq![])
    }
}

/// The first byte of a group of digits.
pub open spec fn first_byte(a: u8, b: u8) -> u8 {
    (a * 4 + b / 16) as u8
}

/// The second byte of a group of digits.
pub open spec fn second_byte(b: u8, c: u8) -> u8 {
    ((b % 16) * 16 + c / 4) as u8
}

/// The third byte of a group of digits.
pub open spec fn third_byte(c: u8, d: u8) -> u8 {
    ((c % 4) * 64 + d) as u8
}

/// The bytes that digits of six bits pack into: three to a group of four, and
/// as many as are whole in what is left over.
pub open spec fn packed(d: Seq<u8>) -> Seq<u8>
    decreases d.len(),
{
    if d.len() >= 4 {
        seq![first_byte(d[0], d[1]), second_byte(d[1], d[2]), third_byte(d[2], d[3])] + packed(
            d.skip(4),
        )
    } else if d.len() == 3 {
        seq![first_byte(d[0], d[1]), second_byte(d[1], d[2])]
    } else if d.len() == 2 {
        seq![first_byte(d[0], d[1])]
    } else {
        seq![]
    }
}

/// What a text decodes to, if it is base64.
pub open spec fn decoded(s: Seq<char>) -> Option<Seq<u8>> {
    match digits_from(s, 0) {
        Some(d) => Some(packed(d)),
        None => None,
    }
}

/// The byte that one more digit completes, if it completes one.
pub open spec fn completed(d: Seq<u8>, v: u8) -> Seq<u8> {
    if d.len() % 4 == 0 {
        seq![]
    } else if d.len() % 4 == 1 {
        seq![first_byte(d.last(), v)]
    } else if d.len() % 4 == 2 {
        seq![second_byte(d.last(), v)]
    } else {
        seq![third_byte(d.last(), v)]
    }
}

proof fn lemma_one_more_digit(d: Seq<u8>, v: u8)
    ensures
        packed(d.push(v)) == packed(d) + completed(d, v),
    decreases d.len(),
{
    let e = d.push(v);
    if d.len() >= 4 {
        let rest = d.skip(4);
        lemma_one_more_digit(rest, v);
        assert(e.skip(4) == rest.push(v));
        assert(completed(rest, v) == completed(d, v)) by {
            assert(rest.len() % 4 == d.len() % 4);
            if rest.len() > 0 {
                assert(rest.last() == d.last());
            }
        }
        let head = seq![
            first_byte(d[0], d[1]),
            second_byte(d[1], d[2]),
            third_byte(d[2], d[3]),
        ];
        assert(packed(e) == head + packed(e.skip(4)));
        assert(packed(d) == head + packed(rest));
        assert(head + (packed(rest) + completed(d, v)) == (head + packed(rest)) + completed(d, v));
    } else if d.len() == 3 {
        assert(e.skip(4) == Seq::<u8>::empty());
        assert(packed(e.skip(4)) == Seq::<u8>::empty());
        assert(packed(e) == packed(d) + completed(d, v));
    } else {
        assert(packed(e) == packed(d) + completed(d, v));
    }
}

/// What a character of the alphabet stands for.
fn digit(c: char) -> (r: Option<u8>)
    ensures
        r == digit_of(c),
        r matches Some(d) ==> d < 64,
{
    if 'A' <= c && c <= 'Z' {
        Some((c as u32 - 'A' as u32) as u8)
    } else if 'a' <= c && c <= 'z' {
        Some((c as u32 - 'a' as u32 + 26) as u8)
    } else if '0' <= c && c <= '9' {
        Some((c as u32 - '0' as u32 + 52) as u8)
    } else if c == '+' {
        Some(62)
    } else if c == '/' {
        Some(63)
    } else {
        None
    }
}

/// How many bits are left over after `n` digits.
pub open spec fn bits_left(n: int) -> int {
    if n % 4 == 0 {
        0
    } else if n % 4 == 1 {
        6
    } else if n % 4 == 2 {
        4
    } else {
        2
    }
}

/// What the bits left over after these digits are worth.
pub open spec fn left_over(d: Seq<u8>) -> int {
    if d.len() % 4 == 0 {
        0
    } else if d.len() % 4 == 1 {
        d.last() as int
    } else if d.len() % 4 == 2 {
        d.last() as int % 16
    } else {
        d.last() as int % 4
    }
}

/// Takes one more digit in: what is left over, how much of it, and the byte it
/// completes.
fn take_in(acc: u32, bits: u32, v: u8) -> (r: (u32, u32, Option<u8>))
    requires
        v < 64,
        bits == 0 || bits == 2 || bits == 4 || bits == 6,
        bits == 0 ==> acc == 0,
        bits == 2 ==> acc < 4,
        bits == 4 ==> acc < 16,
        bits == 6 ==> acc < 64,
    ensures
        bits == 0 ==> r == (v as u32, 6u32, None::<u8>),
        bits == 6 ==> r == ((v % 16) as u32, 4u32, Some((acc * 4 + v / 16) as u8)),
        bits == 4 ==> r == ((v % 4) as u32, 2u32, Some((acc * 16 + v / 4) as u8)),
        bits == 2 ==> r == (0u32, 0u32, Some((acc * 64 + v) as u8)),
{
    let all: u32 = acc * 64 + v as u32;
    if bits == 0 {
        (all, 6, None)
    } else if bits == 6 {
        (all % 16, 4, Some((all / 16) as u8))
    } else if bits == 4 {
        (all % 4, 2, Some((all / 4) as u8))
    } else {
        (0, 0, Some(all as u8))
    }
}

/// Decode standard base64, ignoring whitespace. Pet files embed the sprite
/// sheet this way, sometimes wrapped in CDATA, which the XML parser unwraps.
pub fn decode_base64(s: &str) -> (r: Option<Vec<u8>>)
    ensures
        match r {
            Some(bytes) => decoded(s@) == Some(bytes@),
            None => decoded(s@) is None,
        },
{
    let text = chars_of(s);
    let mut out: Vec<u8> = Vec::new();
    let mut acc: u32 = 0;
    let mut bits: u32 = 0;
    let ghost mut done: Seq<u8> = Seq::empty();
    let mut i: usize = 0;
    assert(digits_from(s@, 0) == followed(done, digits_from(s@, 0))) by {
        if let Some(rest) = digits_from(s@, 0) {
            assert(done + rest == rest);
        }
    }
    while i < text.len() && text[i] != '='
        invariant
            text@ == s@,
            i <= text@.len(),
            digits_from(s@, 0) == followed(done, digits_from(s@, i as int)),
            out@ == packed(done),
            bits == bits_left(done.len() as int),
            acc == left_over(done),
            forall|j: int| 0 <= j < done.len() ==> (#[trigger] done[j]) < 64,
        decreases text@.len() - i,
    {
        let c: char = text[i];
        if c == ' ' || c == '\t' || c == '\n' || c == '\u{c}' || c == '\r' {
            i = i + 1;
            continue ;
        }
        let Some(v) = digit(c) else {
            return None;
        };
        assert(done.len() > 0 ==> done.last() < 64);
        let (left, now, byte) = take_in(acc, bits, v);
        let ghost before = done;
        proof {
            lemma_one_more_digit(done, v);
            done = done.push(v);
            if let Some(rest) = digits_from(s@, i + 1) {
                assert(before + (seq![v] + rest) == done + rest);
            }
        }
        acc = left;
        bits = now;
        if let Some(b) = byte {
            out.push(b);
        }
        assert(out@ == packed(done));
        i = i + 1;
    }
    assert(digits_from(s@, 0) == Some(done)) by {
        assert(digits_from(s@, i as int) == Some(Seq::<u8>::empty()));
        assert(done + Seq::<u8>::empty() == done);
    }
    Some(out)
}

// -- what holds of all base64 --

/// The character for a digit.
pub open spec fn letter_of(d: u8) -> char {
    if d < 26 {
        ('A' as u32 + d) as char
    } else if d < 52 {
        ('a' as u32 + (d - 26)) as char
    } else if d < 62 {
        ('0' as u32 + (d - 52)) as char
    } else if d == 62 {
        '+'
    } else {
        '/'
    }
}

/// The digits of six bits that bytes are written with.
pub open spec fn unpacked(b: Seq<u8>) -> Seq<u8>
    decreases b.len(),
{
    if b.len() >= 3 {
        seq![
            b[0] / 4,
            ((b[0] % 4) * 16 + b[1] / 16) as u8,
            ((b[1] % 16) * 4 + b[2] / 64) as u8,
            b[2] % 64,
        ] + unpacked(b.skip(3))
    } else if b.len() == 2 {
        seq![b[0] / 4, ((b[0] % 4) * 16 + b[1] / 16) as u8, ((b[1] % 16) * 4) as u8]
    } else if b.len() == 1 {
        seq![b[0] / 4, ((b[0] % 4) * 16) as u8]
    } else {
        seq![]
    }
}

/// Bytes as base64, with as much padding as fills the last group.
pub open spec fn encoded(b: Seq<u8>) -> Seq<char> {
    let letters = unpacked(b).map_values(|d: u8| letter_of(d));
    if b.len() % 3 == 1 {
        letters + seq!['=', '=']
    } else if b.len() % 3 == 2 {
        letters + seq!['=']
    } else {
        letters
    }
}

proof fn lemma_letters_are_digits(d: u8)
    requires
        d < 64,
    ensures
        digit_of(letter_of(d)) == Some(d),
        letter_of(d) != '=',
        !is_gap(letter_of(d)),
{
}

proof fn lemma_unpacked_is_small(b: Seq<u8>)
    ensures
        forall|i: int| 0 <= i < unpacked(b).len() ==> (#[trigger] unpacked(b)[i]) < 64,
    decreases b.len(),
{
    if b.len() >= 3 {
        lemma_unpacked_is_small(b.skip(3));
        let rest = unpacked(b.skip(3));
        assert forall|i: int| 0 <= i < unpacked(b).len() implies (#[trigger] unpacked(b)[i]) < 64 by {
            if i >= 4 {
                assert(unpacked(b)[i] == rest[i - 4]);
            }
        }
    }
}

proof fn lemma_packed_again(b: Seq<u8>)
    ensures
        packed(unpacked(b)) == b,
    decreases b.len(),
{
    let d = unpacked(b);
    if b.len() >= 3 {
        lemma_packed_again(b.skip(3));
        assert(d.skip(4) == unpacked(b.skip(3)));
        assert(first_byte(d[0], d[1]) == b[0]);
        assert(second_byte(d[1], d[2]) == b[1]);
        assert(third_byte(d[2], d[3]) == b[2]);
        assert(seq![b[0], b[1], b[2]] + b.skip(3) == b);
    } else if b.len() == 2 {
        assert(first_byte(d[0], d[1]) == b[0]);
        assert(second_byte(d[1], d[2]) == b[1]);
        assert(packed(d) == b);
    } else if b.len() == 1 {
        assert(first_byte(d[0], d[1]) == b[0]);
        assert(packed(d) == b);
    } else {
        assert(packed(d) == b);
    }
}

proof fn lemma_digits_of_letters(s: Seq<char>, d: Seq<u8>, i: int)
    requires
        0 <= i <= d.len() <= s.len(),
        forall|j: int| 0 <= j < d.len() ==> (#[trigger] d[j]) < 64,
        forall|j: int| 0 <= j < d.len() ==> s[j] == letter_of(#[trigger] d[j]),
        d.len() < s.len() ==> s[d.len() as int] == '=',
    ensures
        digits_from(s, i) == Some(d.skip(i)),
    decreases d.len() - i,
{
    if i < d.len() {
        lemma_letters_are_digits(d[i]);
        lemma_digits_of_letters(s, d, i + 1);
        assert(seq![d[i]] + d.skip(i + 1) == d.skip(i));
    } else {
        assert(d.skip(i) == Seq::<u8>::empty());
    }
}

/// Decoding gives back what was encoded.
pub proof fn decoding_undoes_encoding(b: Seq<u8>)
    ensures
        decoded(encoded(b)) == Some(b),
{
    lemma_unpacked_is_small(b);
    lemma_packed_again(b);
    let d = unpacked(b);
    lemma_digits_of_letters(encoded(b), d, 0);
    assert(d.skip(0) == d);
}

proof fn lemma_gap_is_passed_over(a: Seq<char>, c: char, b: Seq<char>, i: int)
    requires
        is_gap(c),
        0 <= i <= a.len(),
    ensures
        digits_from(a.push(c) + b, i) == digits_from(a + b, i),
    decreases a.len() - i,
{
    let with = a.push(c) + b;
    let without = a + b;
    if i < a.len() {
        assert(with[i] == without[i]);
        lemma_gap_is_passed_over(a, c, b, i + 1);
    } else {
        assert(with[i] == c);
        assert(with.skip(i + 1) == without.skip(i));
        lemma_digits_of_the_same(with, without, i + 1, i);
        assert(c != '=');
    }
}

proof fn lemma_digits_of_the_same(s: Seq<char>, t: Seq<char>, i: int, j: int)
    requires
        0 <= i <= s.len(),
        0 <= j <= t.len(),
        s.skip(i) == t.skip(j),
    ensures
        digits_from(s, i) == digits_from(t, j),
    decreases s.len() - i,
{
    assert(s.skip(i).len() == s.len() - i);
    assert(t.skip(j).len() == t.len() - j);
    if i < s.len() {
        assert(s.skip(i)[0] == s[i]);
        assert(t.skip(j)[0] == t[j]);
        assert(s.skip(i + 1) == s.skip(i).skip(1));
        assert(t.skip(j + 1) == t.skip(j).skip(1));
        lemma_digits_of_the_same(s, t, i + 1, j + 1);
    }
}

/// White space anywhere in a text makes no difference to what it decodes to.
pub proof fn white_space_makes_no_difference(a: Seq<char>, c: char, b: Seq<char>)
    requires
        is_gap(c),
    ensures
        decoded(a.push(c) + b) == decoded(a + b),
{
    lemma_gap_is_passed_over(a, c, b, 0);
}

} // verus!

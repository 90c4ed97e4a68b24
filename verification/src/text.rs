//! Reading text: trimming, splitting, comparing and counting.
//!
//! Text is handled as a slice of characters; [`chars_of`] and [`string_of`]
//! convert.

use vstd::prelude::*;
use vstd::slice::slice_subrange;

verus! {

/// `String::push` appends one character.
pub assume_specification[ String::push ](s: &mut String, c: char)
    ensures
        final(s)@ == old(s)@.push(c),
;

/// The characters of a string.
pub fn chars_of(s: &str) -> (r: Vec<char>)
    ensures
        r@ == s@,
{
    let mut out: Vec<char> = Vec::new();
    for c in it: s.chars()
        invariant
            it.seq() == s@,
            out@ == it.seq().take(it.index()),
    {
        out.push(c);
    }
    assert(s@.take(s@.len() as int) == s@);
    out
}

/// A string of these characters.
pub fn string_of(s: &[char]) -> (r: String)
    ensures
        r@ == s@,
{
    let mut out: String = String::new();
    let mut i: usize = 0;
    while i < s.len()
        invariant
            i <= s@.len(),
            out@ == s@.take(i as int),
        decreases s@.len() - i,
    {
        out.push(s[i]);
        i = i + 1;
        assert(s@.take(i as int) == s@.take(i - 1).push(s@[i - 1]));
    }
    assert(s@.take(i as int) == s@);
    out
}

/// Are the two texts the same?
pub fn same_text(a: &[char], b: &[char]) -> (r: bool)
    ensures
        r == (a@ == b@),
{
    if a.len() != b.len() {
        return false;
    }
    let mut i: usize = 0;
    while i < a.len()
        invariant
            i <= a@.len(),
            a@.len() == b@.len(),
            forall|j: int| 0 <= j < i ==> a@[j] == b@[j],
        decreases a@.len() - i,
    {
        if a[i] != b[i] {
            return false;
        }
        i = i + 1;
    }
    assert(a@ == b@);
    true
}

/// Does the text read exactly `word`?
pub fn is_word(s: &[char], word: &str) -> (r: bool)
    ensures
        r == (s@ == word@),
{
    let w = chars_of(word);
    same_text(s, w.as_slice())
}

/// Is the character white space?
pub open spec fn is_space(c: char) -> bool {
    ||| '\u{9}' <= c <= '\u{d}'
    ||| c == '\u{20}'
    ||| c == '\u{85}'
    ||| c == '\u{a0}'
    ||| c == '\u{1680}'
    ||| '\u{2000}' <= c <= '\u{200a}'
    ||| c == '\u{2028}'
    ||| c == '\u{2029}'
    ||| c == '\u{202f}'
    ||| c == '\u{205f}'
    ||| c == '\u{3000}'
}

fn space(c: char) -> (r: bool)
    ensures
        r == is_space(c),
{
    ('\u{9}' <= c && c <= '\u{d}') || c == '\u{20}' || c == '\u{85}' || c == '\u{a0}' || c
        == '\u{1680}' || ('\u{2000}' <= c && c <= '\u{200a}') || c == '\u{2028}' || c == '\u{2029}'
        || c == '\u{202f}' || c == '\u{205f}' || c == '\u{3000}'
}

/// The text without the white space it starts with.
pub open spec fn trimmed_front(s: Seq<char>) -> Seq<char>
    decreases s.len(),
{
    if s.len() > 0 && is_space(s[0]) {
        trimmed_front(s.skip(1))
    } else {
        s
    }
}

/// The text without the white space it ends with.
pub open spec fn trimmed_back(s: Seq<char>) -> Seq<char>
    decreases s.len(),
{
    if s.len() > 0 && is_space(s.last()) {
        trimmed_back(s.drop_last())
    } else {
        s
    }
}

/// The text without the white space around it.
pub open spec fn trimmed(s: Seq<char>) -> Seq<char> {
    trimmed_back(trimmed_front(s))
}

/// The text without the white space around it.
pub fn trim(s: &[char]) -> (r: &[char])
    ensures
        r@ == trimmed(s@),
{
    let n: usize = s.len();
    let mut i: usize = 0;
    assert(s@.skip(0) == s@);
    while i < n && space(s[i])
        invariant
            i <= n,
            n == s@.len(),
            trimmed_front(s@) == trimmed_front(s@.skip(i as int)),
        decreases n - i,
    {
        assert(s@.skip(i as int).skip(1) == s@.skip(i + 1));
        i = i + 1;
    }
    let ghost front = trimmed_front(s@);
    assert(front == s@.subrange(i as int, n as int));
    let mut j: usize = n;
    while j > i && space(s[j - 1])
        invariant
            i <= j <= n,
            n == s@.len(),
            trimmed_back(front) == trimmed_back(s@.subrange(i as int, j as int)),
        decreases j,
    {
        assert(s@.subrange(i as int, j as int).drop_last() == s@.subrange(i as int, j - 1));
        j = j - 1;
    }
    slice_subrange(s, i, j)
}

/// Where the character first occurs at or after `i`, or the length.
pub open spec fn place_of(s: Seq<char>, c: char, i: int) -> int
    decreases s.len() - i,
{
    if i < 0 || i >= s.len() {
        s.len() as int
    } else if s[i] == c {
        i
    } else {
        place_of(s, c, i + 1)
    }
}

/// Where the character first occurs at or after `from`, or the length.
pub fn find_char(s: &[char], c: char, from: usize) -> (r: usize)
    requires
        from <= s@.len(),
    ensures
        r == place_of(s@, c, from as int),
        from <= r <= s@.len(),
        r < s@.len() ==> s@[r as int] == c,
{
    let mut i: usize = from;
    while i < s.len()
        invariant
            from <= i <= s@.len(),
            place_of(s@, c, from as int) == place_of(s@, c, i as int),
        decreases s@.len() - i,
    {
        if s[i] == c {
            return i;
        }
        i = i + 1;
    }
    i
}

/// Does the text hold the character?
pub fn has_char(s: &[char], c: char) -> (r: bool)
    ensures
        r == s@.contains(c),
{
    let mut i: usize = 0;
    while i < s.len()
        invariant
            i <= s@.len(),
            forall|j: int| 0 <= j < i ==> s@[j] != c,
        decreases s@.len() - i,
    {
        if s[i] == c {
            assert(s@[i as int] == c);
            return true;
        }
        i = i + 1;
    }
    false
}

/// Does the text start with `head`?
pub open spec fn begins_with(s: Seq<char>, head: Seq<char>) -> bool {
    head.len() <= s.len() && s.take(head.len() as int) == head
}

/// Does the text start with `head`?
pub fn starts_with(s: &[char], head: &[char]) -> (r: bool)
    ensures
        r == begins_with(s@, head@),
{
    if head.len() > s.len() {
        return false;
    }
    let top = slice_subrange(s, 0, head.len());
    assert(top@ == s@.take(head@.len() as int));
    same_text(top, head)
}

/// Does `part` occur anywhere in the text?
pub open spec fn mentions(s: Seq<char>, part: Seq<char>) -> bool {
    exists|i: int| 0 <= i <= s.len() && begins_with(#[trigger] s.skip(i), part)
}

/// Does `part` occur anywhere in the text?
pub fn has_part(s: &[char], part: &[char]) -> (r: bool)
    ensures
        r == mentions(s@, part@),
{
    let mut i: usize = 0;
    loop
        invariant
            i <= s@.len(),
            forall|j: int| 0 <= j < i ==> !begins_with(#[trigger] s@.skip(j), part@),
        decreases s@.len() - i,
    {
        let rest = slice_subrange(s, i, s.len());
        assert(rest@ == s@.skip(i as int));
        if starts_with(rest, part) {
            return true;
        }
        if i == s.len() {
            return false;
        }
        i = i + 1;
    }
}

/// What lies between the separators.
pub open spec fn pieces(s: Seq<char>, c: char) -> Seq<Seq<char>>
    decreases s.len(),
{
    let k = place_of(s, c, 0);
    if 0 <= k < s.len() {
        seq![s.take(k)] + pieces(s.skip(k + 1), c)
    } else {
        seq![s]
    }
}

/// The lines of a text: each ends at a line feed, and a carriage return just
/// before the feed is no part of it. Nothing follows the last feed.
pub open spec fn lines_of(s: Seq<char>) -> Seq<Seq<char>>
    decreases s.len(),
{
    let k = place_of(s, '\n', 0);
    if s.len() == 0 {
        seq![]
    } else if 0 <= k < s.len() {
        let line = if k > 0 && s[k - 1] == '\r' {
            s.take(k - 1)
        } else {
            s.take(k)
        };
        seq![line] + lines_of(s.skip(k + 1))
    } else {
        seq![s]
    }
}

/// The texts a list of texts holds.
pub open spec fn texts(v: Seq<Vec<char>>) -> Seq<Seq<char>> {
    v.map_values(|t: Vec<char>| t@)
}

/// A copy of a stretch of text.
pub fn copied(s: &[char]) -> (r: Vec<char>)
    ensures
        r@ == s@,
{
    let mut out: Vec<char> = Vec::new();
    let mut i: usize = 0;
    while i < s.len()
        invariant
            i <= s@.len(),
            out@ == s@.take(i as int),
        decreases s@.len() - i,
    {
        out.push(s[i]);
        i = i + 1;
        assert(s@.take(i as int) == s@.take(i - 1).push(s@[i - 1]));
    }
    assert(s@.take(i as int) == s@);
    out
}

proof fn lemma_place_in_rest(s: Seq<char>, c: char, from: int, i: int)
    requires
        0 <= from <= i <= s.len(),
    ensures
        place_of(s.skip(from), c, i - from) + from == place_of(s, c, i),
        i <= place_of(s, c, i) <= s.len(),
    decreases s.len() - i,
{
    if i < s.len() {
        assert(s.skip(from)[i - from] == s[i]);
        if s[i] != c {
            lemma_place_in_rest(s, c, from, i + 1);
        }
    }
}

/// Splits at every separator.
pub fn split(s: &[char], c: char) -> (r: Vec<Vec<char>>)
    ensures
        texts(r@) == pieces(s@, c),
{
    let mut out: Vec<Vec<char>> = Vec::new();
    let mut i: usize = 0;
    assert(s@.skip(0) == s@);
    loop
        invariant
            i <= s@.len(),
            texts(out@) + pieces(s@.skip(i as int), c) == pieces(s@, c),
        decreases s@.len() - i,
    {
        let k: usize = find_char(s, c, i);
        proof {
            lemma_place_in_rest(s@, c, i as int, i as int);
        }
        let ghost rest = s@.skip(i as int);
        let ghost before = texts(out@);
        let piece = copied(slice_subrange(s, i, k));
        assert(piece@ == rest.take(k - i));
        out.push(piece);
        assert(texts(out@) == before.push(piece@));
        if k == s.len() {
            assert(rest.take(k - i) == rest);
            assert(texts(out@) == pieces(s@, c));
            return out;
        }
        assert(rest.skip(k - i + 1) == s@.skip(k + 1));
        assert(texts(out@) + pieces(s@.skip(k + 1), c) == before + (seq![piece@] + pieces(
            s@.skip(k + 1),
            c,
        )));
        i = k + 1;
    }
}

/// Splits into lines.
pub fn lines(s: &[char]) -> (r: Vec<Vec<char>>)
    ensures
        texts(r@) == lines_of(s@),
{
    let mut out: Vec<Vec<char>> = Vec::new();
    let mut i: usize = 0;
    assert(s@.skip(0) == s@);
    assert(texts(out@) == Seq::<Seq<char>>::empty());
    while i < s.len()
        invariant
            i <= s@.len(),
            texts(out@) + lines_of(s@.skip(i as int)) == lines_of(s@),
        decreases s@.len() - i,
    {
        let k: usize = find_char(s, '\n', i);
        proof {
            lemma_place_in_rest(s@, '\n', i as int, i as int);
        }
        let ghost rest = s@.skip(i as int);
        let ghost before = texts(out@);
        let returned = k < s.len() && k > i && s[k - 1] == '\r';
        let end: usize = if returned {
            k - 1
        } else {
            k
        };
        let line = copied(slice_subrange(s, i, end));
        assert(line@ == rest.take(end - i));
        out.push(line);
        assert(texts(out@) == before.push(line@));
        if k == s.len() {
            assert(rest.take(k - i) == rest);
            assert(before + seq![rest] == before.push(line@));
            return out;
        }
        assert(rest.skip(k - i + 1) == s@.skip(k + 1));
        assert(texts(out@) + lines_of(s@.skip(k + 1)) == before + (seq![line@] + lines_of(
            s@.skip(k + 1),
        )));
        i = k + 1;
    }
    assert(s@.skip(i as int) == Seq::<char>::empty());
    assert(texts(out@) + Seq::<Seq<char>>::empty() == texts(out@));
    out
}

/// Is the character a decimal digit?
pub open spec fn is_digit(c: char) -> bool {
    '0' <= c <= '9'
}

/// Is the text a run of one or more digits?
pub open spec fn is_digits(s: Seq<char>) -> bool {
    s.len() > 0 && forall|i: int| 0 <= i < s.len() ==> is_digit(#[trigger] s[i])
}

/// What a run of digits is worth.
pub open spec fn worth_of(s: Seq<char>) -> nat
    decreases s.len(),
{
    if s.len() == 0 {
        0
    } else {
        worth_of(s.drop_last()) * 10 + (s.last() as nat - '0' as nat) as nat
    }
}

/// The number that digits with an optional plus sign before them stand for,
/// if it is no more than `most`.
pub open spec fn whole_number(s: Seq<char>, most: nat) -> Option<nat> {
    let digits = if s.len() > 0 && s[0] == '+' {
        s.skip(1)
    } else {
        s
    };
    if is_digits(digits) && worth_of(digits) <= most {
        Some(worth_of(digits))
    } else {
        None
    }
}

/// The number that digits with an optional sign before them stand for, if an
/// `i64` can hold it.
pub open spec fn signed_number(s: Seq<char>) -> Option<i64> {
    if s.len() > 0 && s[0] == '-' {
        let digits = s.skip(1);
        if is_digits(digits) && worth_of(digits) <= 0x8000_0000_0000_0000 {
            Some((-worth_of(digits)) as i64)
        } else {
            None
        }
    } else {
        match whole_number(s, i64::MAX as nat) {
            Some(n) => Some(n as i64),
            None => None,
        }
    }
}

/// The worth of a run of digits, if it is one and an `u64` can hold it.
fn read_digits(s: &[char]) -> (r: Option<u64>)
    ensures
        match r {
            Some(n) => is_digits(s@) && n == worth_of(s@),
            None => !is_digits(s@) || worth_of(s@) > u64::MAX,
        },
{
    if s.len() == 0 {
        return None;
    }
    let mut i: usize = 0;
    let mut n: u128 = 0;
    while i < s.len()
        invariant
            i <= s@.len(),
            n <= 0x1_0000_0000_0000_0000,
            n < 0x1_0000_0000_0000_0000 ==> n == worth_of(s@.take(i as int)),
            n == 0x1_0000_0000_0000_0000 ==> worth_of(s@.take(i as int))
                >= 0x1_0000_0000_0000_0000,
            forall|j: int| 0 <= j < i ==> is_digit(#[trigger] s@[j]),
        decreases s@.len() - i,
    {
        let c: char = s[i];
        if c < '0' || c > '9' {
            assert(!is_digit(s@[i as int]));
            return None;
        }
        assert(s@.take(i + 1).drop_last() == s@.take(i as int));
        n = n * 10 + (c as u32 - '0' as u32) as u128;
        if n > 0x1_0000_0000_0000_0000 {
            n = 0x1_0000_0000_0000_0000;
        }
        i = i + 1;
    }
    assert(s@.take(i as int) == s@);
    if n < 0x1_0000_0000_0000_0000 {
        Some(n as u64)
    } else {
        None
    }
}

/// Reads digits with an optional plus sign before them.
pub fn read_whole(s: &[char], most: u64) -> (r: Option<u64>)
    ensures
        match r {
            Some(n) => whole_number(s@, most as nat) == Some(n as nat),
            None => whole_number(s@, most as nat) is None,
        },
{
    let digits: Option<u64> = if s.len() > 0 && s[0] == '+' {
        let rest = slice_subrange(s, 1, s.len());
        assert(rest@ == s@.skip(1));
        read_digits(rest)
    } else {
        read_digits(s)
    };
    match digits {
        Some(n) => if n <= most {
            Some(n)
        } else {
            None
        },
        None => None,
    }
}

/// Reads digits with an optional sign before them.
pub fn read_signed(s: &[char]) -> (r: Option<i64>)
    ensures
        r == signed_number(s@),
{
    if s.len() > 0 && s[0] == '-' {
        let rest = slice_subrange(s, 1, s.len());
        assert(rest@ == s@.skip(1));
        match read_digits(rest) {
            Some(n) => if n < 0x8000_0000_0000_0000 {
                Some(-(n as i64))
            } else if n == 0x8000_0000_0000_0000 {
                Some(i64::MIN)
            } else {
                None
            },
            None => None,
        }
    } else {
        match read_whole(s, i64::MAX as u64) {
            Some(n) => Some(n as i64),
            None => None,
        }
    }
}

/// The character in lower case, if it is an ASCII letter.
pub open spec fn lowered(c: char) -> char {
    if 'A' <= c <= 'Z' {
        (c as u32 + 32) as char
    } else {
        c
    }
}

/// Do the texts read the same but for the case of ASCII letters?
pub open spec fn alike(a: Seq<char>, b: Seq<char>) -> bool {
    a.len() == b.len() && forall|i: int|
        0 <= i < a.len() ==> lowered(#[trigger] a[i]) == lowered(b[i])
}

fn lower(c: char) -> (r: char)
    ensures
        r == lowered(c),
{
    if 'A' <= c && c <= 'Z' {
        let b: u8 = c as u8;
        (b + 32) as char
    } else {
        c
    }
}

/// Do the texts read the same but for the case of ASCII letters?
pub fn reads_alike(a: &[char], b: &[char]) -> (r: bool)
    ensures
        r == alike(a@, b@),
{
    if a.len() != b.len() {
        return false;
    }
    let mut i: usize = 0;
    while i < a.len()
        invariant
            i <= a@.len(),
            a@.len() == b@.len(),
            forall|j: int| 0 <= j < i ==> lowered(#[trigger] a@[j]) == lowered(b@[j]),
        decreases a@.len() - i,
    {
        if lower(a[i]) != lower(b[i]) {
            assert(lowered(a@[i as int]) != lowered(b@[i as int]));
            return false;
        }
        i = i + 1;
    }
    true
}

} // verus!

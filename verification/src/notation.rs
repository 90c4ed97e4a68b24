//! How settings and pictures are written down.

use vstd::prelude::*;

use crate::config::{
    comment_from, expanded, file_path, joined, names_from, names_in, scale_ok, smooth_ok, speed_ok,
    unquoted, unquoted_from, value_of, Meaning,
};
use crate::fixed::{quotient_of, Fixed};
use crate::ground::PIXEL;
use crate::number::ratio;
use crate::options::{is_blank_space, is_tight, trimming_takes_off_white_space};
use crate::reading::a_text_is_cut_at_its_marks;
use crate::sprites::{fault_of, rgba_at, samples, PictureItem, Sheet, SheetFault};
use crate::text::{begins_with, is_digit, is_space, pieces, signed_number, trimmed, trimmed_front};

verus! {

// -- settings --

/// A sheep may be from a tenth of its size to twenty times that, and from a
/// tenth of its pace to ten times that; it may be drawn up to two hundred and
/// forty times a second, or not at all between its steps.
pub proof fn settings_have_their_limits(f: Fixed, n: i64)
    ensures
        scale_ok(f) <==> 10 * f.raw >= PIXEL && f.raw <= 20 * PIXEL,
        speed_ok(f) <==> 10 * f.raw >= PIXEL && f.raw <= 10 * PIXEL,
        smooth_ok(n) <==> 0 <= n <= 240,
{
    assert(quotient_of(PIXEL * PIXEL, 10 * PIXEL) == 1_000_000_000) by (nonlinear_arith)
        requires
            PIXEL == 10_000_000_000,
    ;
    assert(ratio::<Fixed>(1, 10).raw == 1_000_000_000);
}

proof fn lemma_no_comment(s: Seq<char>, from: int, to: int, quoted: bool)
    requires
        0 <= from <= to <= s.len(),
        forall|k: int| from <= k < to ==> #[trigger] s[k] != '"',
        !quoted ==> forall|k: int| from <= k < to ==> #[trigger] s[k] != '#',
    ensures
        comment_from(s, from, quoted) == comment_from(s, to, quoted),
    decreases to - from,
{
    if from < to {
        lemma_no_comment(s, from + 1, to, quoted);
    }
}

/// What looks like a comment inside quotes is none: the comment begins behind
/// the closing quote.
pub proof fn a_comment_does_not_begin_in_quotes(
    before: Seq<char>,
    inner: Seq<char>,
    after: Seq<char>,
    comment: Seq<char>,
)
    requires
        !before.contains('"') && !before.contains('#'),
        !inner.contains('"'),
        !after.contains('"') && !after.contains('#'),
    ensures
        ({
            let text = before + seq!['"'] + inner + seq!['"'] + after;
            &&& comment_from(text, 0, false) == text.len()
            &&& comment_from(text + seq!['#'] + comment, 0, false) == text.len()
        }),
{
    let text = before + seq!['"'] + inner + seq!['"'] + after;
    let whole = text + seq!['#'] + comment;
    let (a, b, c) = (
        before.len() as int,
        before.len() + 1 + inner.len() as int,
        text.len() as int,
    );
    assert forall|k: int| 0 <= k < a implies text[k] == before[k] && before.contains(text[k]) by {
        assert(before.contains(before[k]));
    }
    assert forall|k: int| a < k < b implies text[k] == inner[k - a - 1] && inner.contains(
        text[k],
    ) by {
        assert(inner.contains(inner[k - a - 1]));
    }
    assert forall|k: int| b < k < c implies text[k] == after[k - b - 1] && after.contains(
        text[k],
    ) by {
        assert(after.contains(after[k - b - 1]));
    }
    assert(text[a] == '"' && text[b] == '"');
    lemma_no_comment(text, 0, a, false);
    lemma_no_comment(text, a + 1, b, true);
    lemma_no_comment(text, b + 1, c, false);
    assert forall|k: int| 0 <= k < c implies whole[k] == text[k] by {}
    assert(whole[c] == '#');
    lemma_no_comment(whole, 0, a, false);
    lemma_no_comment(whole, a + 1, b, true);
    lemma_no_comment(whole, b + 1, c, false);
}

proof fn lemma_names_behind(first: Seq<char>, list: Seq<Seq<char>>, i: int)
    requires
        0 <= i <= list.len(),
    ensures
        names_from(seq![first] + list, i + 1) == names_from(list, i),
    decreases list.len() - i,
{
    if i < list.len() {
        assert((seq![first] + list)[i + 1] == list[i]);
        lemma_names_behind(first, list, i + 1);
    }
}

/// The names of a list stand between its commas, without the white space about
/// them. Where there is nothing but white space there is no name.
pub proof fn names_stand_between_commas(
    before: Seq<char>,
    name: Seq<char>,
    after: Seq<char>,
    rest: Seq<char>,
)
    requires
        is_blank_space(before) && !before.contains(','),
        is_blank_space(after) && !after.contains(','),
        is_tight(name) && !name.contains(','),
    ensures
        names_in(before + name + after) == seq![name],
        names_in(before + name + after + seq![','] + rest) == seq![name] + names_in(rest),
        names_in(before + seq![','] + rest) == names_in(rest),
        names_in(seq![]) == Seq::<Seq<char>>::empty(),
{
    let item = before + name + after;
    assert(!item.contains(',')) by {
        if item.contains(',') {
            let k = item.index_of(',');
            if k < before.len() {
                assert(before.contains(before[k]));
            } else if k < before.len() + name.len() {
                assert(name.contains(name[k - before.len()]));
            } else {
                assert(after.contains(after[k - before.len() - name.len()]));
            }
        }
    }
    trimming_takes_off_white_space(before, name, after);
    a_text_is_cut_at_its_marks(item, ',', rest);
    a_text_is_cut_at_its_marks(before, ',', rest);
    a_text_is_cut_at_its_marks(seq![], ',', rest);
    lemma_blank(before);
    lemma_blank(seq![]);
    let list = pieces(rest, ',');
    lemma_names_behind(item, list, 0);
    lemma_names_behind(before, list, 0);
    assert((seq![item] + list)[0] == item);
    assert((seq![before] + list)[0] == before);
    reveal_with_fuel(names_from, 2);
    assert(seq![name] + Seq::<Seq<char>>::empty() == seq![name]);
}

proof fn lemma_blank(s: Seq<char>)
    requires
        is_blank_space(s),
    ensures
        trimmed(s).len() == 0,
{
    lemma_blank_front(s);
}

proof fn lemma_blank_front(s: Seq<char>)
    requires
        is_blank_space(s),
    ensures
        trimmed_front(s).len() == 0,
    decreases s.len(),
{
    if s.len() > 0 {
        assert(is_space(s[0]));
        let rest = s.skip(1);
        assert forall|k: int| 0 <= k < rest.len() implies is_space(
            #[trigger] rest[k],
        ) by {
            assert(rest[k] == s[k + 1]);
        }
        lemma_blank_front(rest);
    }
}

/// A word loses the quotes about it, and stays as it is without any.
pub proof fn a_word_loses_its_quotes(inner: Seq<char>, word: Seq<char>)
    requires
        is_tight(word),
        !word.contains('"') && !word.contains('[') && !word.contains(']'),
    ensures
        unquoted(seq!['"'] + inner + seq!['"']) == Some(inner),
        unquoted(word) == Some(word),
{
    let quoted = seq!['"'] + inner + seq!['"'];
    assert(quoted[0] == '"');
    assert(quoted.last() == '"');
    assert(quoted.subrange(1, quoted.len() - 1) == inner);
    assert(Seq::<char>::empty() + quoted + Seq::<char>::empty() == quoted);
    trimming_takes_off_white_space(Seq::empty(), quoted, Seq::empty());
    assert(Seq::<char>::empty() + word + Seq::<char>::empty() == word);
    trimming_takes_off_white_space(Seq::empty(), word, Seq::empty());
    assert(word.contains(word[0]));
}

/// A list in brackets says its words, in their order.
pub proof fn a_list_says_its_words(a: Seq<char>, b: Seq<char>)
    requires
        is_tight(a) && !a.contains('"') && !a.contains('[') && !a.contains(']') && !a.contains(
            ',',
        ),
        is_tight(b) && !b.contains('"') && !b.contains('[') && !b.contains(']') && !b.contains(
            ',',
        ),
    ensures
        value_of::<Fixed>(seq!['['] + a + seq![','] + b + seq![']']) == Some(
            Meaning::<Fixed>::List(seq![a, b]),
        ),
        value_of::<Fixed>(seq!['['] + a + seq![']']) == Some(Meaning::<Fixed>::List(seq![a])),
        value_of::<Fixed>(seq!['[', ']']) == Some(Meaning::<Fixed>::List(seq![])),
{
    let e = Seq::<char>::empty();
    assert(e + a + e == a);
    assert(e + b + e == b);
    names_stand_between_commas(e, a, e, b);
    names_stand_between_commas(e, b, e, e);
    assert(seq![a] + seq![b] == seq![a, b]);
    a_word_loses_its_quotes(e, a);
    a_word_loses_its_quotes(e, b);
    reveal_with_fuel(unquoted_from, 3);
    assert(seq![a] + (seq![b] + Seq::<Seq<char>>::empty()) == seq![a, b]);
    assert(seq![a] + Seq::<Seq<char>>::empty() == seq![a]);
    assert(unquoted_from(seq![a, b], 0) == Some(seq![a, b]));
    assert(unquoted_from(seq![a], 0) == Some(seq![a]));
    lemma_bracket(a + seq![','] + b);
    lemma_bracket(a);
    lemma_bracket(e);
    assert(seq!['['] + (a + seq![','] + b) + seq![']'] == seq!['['] + a + seq![','] + b + seq![
        ']',
    ]);
    assert(seq!['['] + e + seq![']'] == seq!['[', ']']);
}

proof fn lemma_bracket(inner: Seq<char>)
    ensures
        ({
            let s = seq!['['] + inner + seq![']'];
            value_of::<Fixed>(s) == match unquoted_from(names_in(inner), 0) {
                Some(list) => Some(Meaning::<Fixed>::List(list)),
                None => None,
            }
        }),
{
    let s = seq!['['] + inner + seq![']'];
    reveal_strlit("true");
    reveal_strlit("false");
    assert(s[0] == '[');
    assert("true"@[0] == 't' && "false"@[0] == 'f');
    assert(!is_digit(s[0]));
    assert(signed_number(s) is None);
    assert(s.last() == ']');
    assert(s.subrange(1, s.len() - 1) == inner);
}

// -- paths --

/// A path that begins at home is the home directory with the rest behind it.
/// Any other stays as it is, and so does every path where no home is known.
pub proof fn a_tilde_is_the_home_directory(home: Seq<char>, rest: Seq<char>, other: Seq<char>)
    requires
        home.len() > 0,
        home.last() != '/',
        rest.len() > 0 ==> rest[0] != '/',
        other.len() > 0 ==> other[0] != '~',
    ensures
        expanded("~/"@ + rest, Some(home)) == home + "/"@ + rest,
        expanded("~/"@ + rest, None) == "~/"@ + rest,
        expanded(other, Some(home)) == other,
{
    reveal_strlit("~/");
    reveal_strlit("/");
    let path = "~/"@ + rest;
    assert(path.take(2) == "~/"@);
    assert(path.skip(2) == rest);
    assert(seq!['/'] == "/"@);
    if begins_with(other, "~/"@) {
        assert(other.take(2)[0] == other[0]);
    }
}

/// The settings are in the directory for settings, where one is named, and in
/// that of the home directory else.
pub proof fn the_settings_have_their_place(xdg: Seq<char>, home: Seq<char>)
    requires
        xdg.len() > 0,
        xdg.last() != '/',
        home.len() > 0,
        home.last() != '/',
    ensures
        file_path(Some(xdg), Some(home)) == Some(xdg + "/hyprsheep/config.toml"@),
        file_path(Some(xdg), None) == Some(xdg + "/hyprsheep/config.toml"@),
        file_path(None, Some(home)) == Some(home + "/.config/hyprsheep/config.toml"@),
        file_path(Some(seq![]), Some(home)) == Some(home + "/.config/hyprsheep/config.toml"@),
        file_path(None, None) is None,
{
    reveal_strlit("hyprsheep");
    reveal_strlit("config.toml");
    reveal_strlit(".config");
    reveal_strlit("/hyprsheep/config.toml");
    reveal_strlit("/.config/hyprsheep/config.toml");
    let own = joined(xdg, "hyprsheep"@);
    assert(own.last() == 'p');
    assert(own + seq!['/'] + "config.toml"@ == xdg + "/hyprsheep/config.toml"@);
    let dir = joined(home, ".config"@);
    assert(dir.last() == 'g');
    let inner = joined(dir, "hyprsheep"@);
    assert(inner.last() == 'p');
    assert(inner + seq!['/'] + "config.toml"@ == home + "/.config/hyprsheep/config.toml"@);
}

// -- pictures --

/// Every pixel of a sheet is that of the picture it is made from, in red, green
/// and blue and as solid as it is: grey is as much of all three, and what is
/// not said to be clear is solid.
pub proof fn a_sheet_has_the_pixels_of_its_picture(sheet: Sheet, p: PictureItem, i: int)
    requires
        sheet.shows(p),
        0 <= i < p.width * p.height,
    ensures
        ({
            let px = sheet.pixels@.subrange(4 * i, 4 * i + 4);
            &&& px.len() == 4
            &&& p.colour == 6 ==> px[0] == p.data[4 * i] && px[1] == p.data[4 * i + 1] && px[2]
                == p.data[4 * i + 2] && px[3] == p.data[4 * i + 3]
            &&& p.colour == 2 ==> px[0] == p.data[3 * i] && px[1] == p.data[3 * i + 1] && px[2]
                == p.data[3 * i + 2] && px[3] == 255
            &&& p.colour == 4 ==> px[0] == p.data[2 * i] && px[1] == px[0] && px[2] == px[0]
                && px[3] == p.data[2 * i + 1]
            &&& p.colour == 0 ==> px[0] == p.data[i] && px[1] == px[0] && px[2] == px[0] && px[3]
                == 255
        }),
{
    let n = samples(p.colour) as int;
    assert(sheet.pixels@.subrange(4 * i, 4 * i + 4) == rgba_at(p.colour, p.data, i * n));
    assert((n == 4 ==> i * n == 4 * i) && (n == 3 ==> i * n == 3 * i) && (n == 2 ==> i * n == 2
        * i) && (n == 1 ==> i * n == i)) by (nonlinear_arith);
}

/// Pictures of eight bits are taken in grey and in colour, with and without a
/// part that says how solid they are, and no others.
pub proof fn pictures_of_other_kinds_are_refused(p: PictureItem)
    ensures
        p.depth != 8 ==> fault_of(p) == Some(SheetFault::Depth(p.depth)),
        p.depth == 8 && (p.colour == 0 || p.colour == 2 || p.colour == 4 || p.colour == 6)
            ==> fault_of(p) is None,
        p.depth == 8 && (p.colour == 1 || p.colour == 3 || p.colour == 5 || p.colour > 6)
            ==> fault_of(p) == Some(SheetFault::Colour(p.colour)),
{
}

} // verus!

//! What a pet file says.

use vstd::prelude::*;

use crate::anim::{only_named, Animation, Child, Endpoint, Next, Only, Pet, Situation, Spawn};
use crate::decimals::{all_digits, spelled};
use crate::fixed::Fixed;
use crate::ground::PIXEL;
use crate::number::Number;
use crate::petfile::{
    animation_nodes, expr_in, frames_from, next_at, nexts_from, nexts_in, number_at,
    reads_animation, reads_child, reads_endpoint, reads_pet, reads_spawn, small_number,
};
use crate::text::{
    begins_with, is_digit, is_digits, lines_of, mentions, pieces, place_of, trimmed, whole_number,
    worth_of,
};
use crate::xml::{
    attribute_from, attribute_of, child_of, children_from, children_of, is_child, root_from,
    XmlItem,
};

verus! {

/// Is the node in place `i` an element called `name` inside that in place
/// `parent`?
pub open spec fn is_called(doc: Seq<XmlItem>, parent: usize, name: Seq<char>, i: int) -> bool {
    &&& 0 <= i < doc.len()
    &&& doc[i].element
    &&& doc[i].parent == Some(parent)
    &&& doc[i].name == name
}

/// Is the node in place `c` the first element called `name` inside that in
/// place `parent`?
pub open spec fn is_first(doc: Seq<XmlItem>, parent: usize, name: Seq<char>, c: usize) -> bool {
    is_called(doc, parent, name, c as int) && forall|j: int|
        0 <= j < c ==> !(#[trigger] is_called(doc, parent, name, j))
}

proof fn lemma_children(doc: Seq<XmlItem>, parent: usize, name: Seq<char>, i: int)
    requires
        0 <= i <= doc.len() <= usize::MAX,
    ensures
        ({
            let list = children_from(doc, parent, name, i);
            &&& forall|k: int|
                0 <= k < list.len() ==> i <= #[trigger] list[k] && is_called(
                    doc,
                    parent,
                    name,
                    list[k] as int,
                )
            &&& forall|k: int, m: int|
                0 <= k < m < list.len() ==> (#[trigger] list[k]) < (#[trigger] list[m])
            &&& forall|j: int|
                i <= j && #[trigger] is_called(doc, parent, name, j) ==> list.contains(j as usize)
        }),
    decreases doc.len() - i,
{
    if i < doc.len() {
        lemma_children(doc, parent, name, i + 1);
        let rest = children_from(doc, parent, name, i + 1);
        let list = children_from(doc, parent, name, i);
        if is_child(doc, parent, name, i) {
            assert(list == seq![i as usize] + rest);
            assert forall|j: int|
                i <= j && #[trigger] is_called(doc, parent, name, j) implies list.contains(
                j as usize,
            ) by {
                if j > i {
                    let at = rest.index_of(j as usize);
                    assert(list[at + 1] == j as usize);
                } else {
                    assert(list[0] == j as usize);
                }
            }
        } else {
            assert(!is_called(doc, parent, name, i));
        }
    }
}

/// The elements of a name inside another are all of them, in the order of the
/// document.
pub proof fn elements_are_found_in_order(doc: Seq<XmlItem>, parent: usize, name: Seq<char>)
    requires
        doc.len() <= usize::MAX,
    ensures
        ({
            let list = children_of(doc, parent, name);
            &&& forall|k: int|
                0 <= k < list.len() ==> is_called(doc, parent, name, #[trigger] list[k] as int)
            &&& forall|k: int, m: int|
                0 <= k < m < list.len() ==> (#[trigger] list[k]) < (#[trigger] list[m])
            &&& forall|j: int| #[trigger]
                is_called(doc, parent, name, j) ==> list.contains(j as usize)
        }),
{
    lemma_children(doc, parent, name, 0);
}

/// Where there are several elements of a name the first of them is meant.
pub proof fn the_first_element_of_a_name_counts(
    doc: Seq<XmlItem>,
    parent: usize,
    name: Seq<char>,
    c: usize,
)
    requires
        doc.len() <= usize::MAX,
    ensures
        is_first(doc, parent, name, c) ==> child_of(doc, parent, name) == Some(c),
        (forall|j: int| !#[trigger] is_called(doc, parent, name, j)) ==> child_of(doc, parent, name)
            is None,
{
    lemma_children(doc, parent, name, 0);
    let list = children_of(doc, parent, name);
    if is_first(doc, parent, name, c) {
        assert(list.contains(c));
        let at = list.index_of(c);
        if list[0] < c {
            assert(is_called(doc, parent, name, list[0] as int));
        }
        if at > 0 {
            assert(list[0] < list[at]);
        }
    }
    if list.len() > 0 {
        assert(is_called(doc, parent, name, list[0] as int));
    }
}

/// Where an element has several attributes of a name the first of them is
/// meant.
pub proof fn the_first_attribute_of_a_name_counts(
    list: Seq<(Seq<char>, Seq<char>)>,
    name: Seq<char>,
    from: int,
    k: int,
)
    requires
        0 <= from <= k < list.len(),
        list[k].0 == name,
        forall|j: int| from <= j < k ==> (#[trigger] list[j]).0 != name,
    ensures
        attribute_from(list, name, from) == Some(list[k].1),
    decreases k - from,
{
    if from < k {
        assert(list[from].0 != name);
        the_first_attribute_of_a_name_counts(list, name, from + 1, k);
    }
}

/// An attribute that an element does not have is not made up.
pub proof fn a_missing_attribute_is_missing(
    list: Seq<(Seq<char>, Seq<char>)>,
    name: Seq<char>,
    from: int,
)
    requires
        0 <= from,
        forall|j: int| 0 <= j < list.len() ==> (#[trigger] list[j]).0 != name,
    ensures
        attribute_from(list, name, from) is None,
    decreases list.len() - from,
{
    if from < list.len() {
        a_missing_attribute_is_missing(list, name, from + 1);
    }
}

/// The element that holds all the others is the first one at the top.
pub proof fn the_root_is_the_first_element_at_the_top(doc: Seq<XmlItem>, from: int, c: int)
    requires
        0 <= from <= c < doc.len() <= usize::MAX,
        doc[c].element,
        doc[c].parent == Some(0usize),
        forall|j: int|
            from <= j < c ==> !((#[trigger] doc[j]).element && doc[j].parent == Some(0usize)),
    ensures
        root_from(doc, from) == Some(c as usize),
    decreases c - from,
{
    if from < c {
        the_root_is_the_first_element_at_the_top(doc, from + 1, c);
    }
}

// -- numbers --

/// Digits are read as the number that they spell, with or without a plus sign
/// before them, where it is no more than what is held.
pub proof fn digits_spell_a_number(digits: Seq<char>, most: nat)
    requires
        digits.len() > 0,
        all_digits(digits),
    ensures
        spelled(digits) <= most ==> whole_number(digits, most) == Some(spelled(digits) as nat)
            && whole_number(seq!['+'] + digits, most) == Some(spelled(digits) as nat),
        spelled(digits) > most ==> whole_number(digits, most) is None,
        spelled(digits) <= u32::MAX ==> small_number(digits) == Some(spelled(digits) as u32),
{
    lemma_worth(digits);
    assert forall|i: int| 0 <= i < digits.len() implies is_digit(#[trigger] digits[i]) by {
        assert('0' <= digits[i] <= '9');
    }
    assert(digits[0] != '+') by {
        assert('0' <= digits[0] <= '9');
    }
    let signed = seq!['+'] + digits;
    assert(signed[0] == '+');
    assert(signed.skip(1) == digits);
}

proof fn lemma_worth(digits: Seq<char>)
    requires
        all_digits(digits),
    ensures
        worth_of(digits) == spelled(digits),
    decreases digits.len(),
{
    if digits.len() > 0 {
        let rest = digits.drop_last();
        assert forall|k: int| 0 <= k < rest.len() implies '0' <= #[trigger] rest[k] <= '9' by {
            assert('0' <= digits[k] <= '9');
        }
        assert('0' <= digits[digits.len() - 1] <= '9');
        lemma_worth(rest);
    }
}

/// What is no run of digits is no number.
pub proof fn other_text_is_no_number(text: Seq<char>, i: int, most: nat)
    requires
        0 <= i < text.len(),
        !('0' <= text[i] <= '9'),
        i > 0 || text[i] != '+',
    ensures
        whole_number(text, most) is None,
        small_number(text) is None,
{
    if text[0] == '+' {
        let digits = text.skip(1);
        assert(digits[i - 1] == text[i]);
        assert(!is_digit(digits[i - 1]));
        assert(!is_digits(digits));
    } else {
        assert(!is_digit(text[i]));
        assert(!is_digits(text));
    }
}

// -- an animation --

/// Is `v` what the first element called `name` inside that in place `n` tells,
/// without the white space about it, and `default` where it tells nothing or
/// is not there?
pub open spec fn is_told(
    doc: Seq<XmlItem>,
    n: usize,
    name: Seq<char>,
    default: Seq<char>,
    v: Seq<char>,
) -> bool {
    &&& forall|c: usize, t: Seq<char>|
        #![trigger is_first(doc, n, name, c), trimmed(t)]
        is_first(doc, n, name, c) && doc[c as int].text == Some(t) && trimmed(t).len() > 0 ==> v
            == trimmed(t)
    &&& forall|c: usize| #[trigger]
        is_first(doc, n, name, c) && (doc[c as int].text is None || trimmed(
            doc[c as int].text->0,
        ).len() == 0) ==> v == default
    &&& (forall|j: int| !#[trigger] is_called(doc, n, name, j)) ==> v == default
}

proof fn lemma_told(doc: Seq<XmlItem>, n: usize, name: Seq<char>, default: Seq<char>)
    requires
        doc.len() <= usize::MAX,
    ensures
        is_told(doc, n, name, default, expr_in(doc, n, name, default)),
{
    assert forall|c: usize, t: Seq<char>|
        #![trigger is_first(doc, n, name, c), trimmed(t)]
        is_first(doc, n, name, c) && doc[c as int].text == Some(t) && trimmed(t).len()
            > 0 implies expr_in(doc, n, name, default) == trimmed(t) by {
        the_first_element_of_a_name_counts(doc, n, name, c);
    }
    assert forall|c: usize| #[trigger]
        is_first(doc, n, name, c) && (doc[c as int].text is None || trimmed(
            doc[c as int].text->0,
        ).len() == 0) implies expr_in(doc, n, name, default) == default by {
        the_first_element_of_a_name_counts(doc, n, name, c);
    }
    the_first_element_of_a_name_counts(doc, n, name, 0);
}

/// Where an animation starts or ends is told by the element for it: how fast
/// it goes each way, how long a step lasts, how far down it is drawn and how
/// solid it is. What it does not tell is nothing, a second, and solid.
pub proof fn an_endpoint_is_told_by_its_element(
    e: Endpoint<Fixed>,
    doc: Seq<XmlItem>,
    n: usize,
    name: Seq<char>,
    c: usize,
)
    requires
        doc.len() <= usize::MAX,
        reads_endpoint(e, doc, n, name),
    ensures
        is_first(doc, n, name, c) ==> {
            &&& is_told(doc, c, "x"@, "0"@, e.x@)
            &&& is_told(doc, c, "y"@, "0"@, e.y@)
            &&& is_told(doc, c, "interval"@, "1000"@, e.interval@)
            &&& is_told(doc, c, "offsety"@, "0"@, e.offset_y@)
            &&& forall|o: usize| #[trigger]
                is_first(doc, c, "opacity"@, o) && doc[o as int].text is Some && Fixed::spec_read(
                    trimmed(doc[o as int].text->0),
                ) is Some ==> Some(e.opacity) == Fixed::spec_read(trimmed(doc[o as int].text->0))
        },
        (forall|j: int| !#[trigger] is_called(doc, n, name, j)) ==> {
            &&& e.x@ == "0"@
            &&& e.y@ == "0"@
            &&& e.interval@ == "1000"@
            &&& e.offset_y@ == "0"@
            &&& e.opacity.raw == PIXEL
        },
{
    the_first_element_of_a_name_counts(doc, n, name, c);
    if is_first(doc, n, name, c) {
        lemma_told(doc, c, "x"@, "0"@);
        lemma_told(doc, c, "y"@, "0"@);
        lemma_told(doc, c, "interval"@, "1000"@);
        lemma_told(doc, c, "offsety"@, "0"@);
        assert forall|o: usize| #[trigger]
            is_first(doc, c, "opacity"@, o) && doc[o as int].text is Some && Fixed::spec_read(
                trimmed(doc[o as int].text->0),
            ) is Some implies Some(e.opacity) == Fixed::spec_read(
            trimmed(doc[o as int].text->0),
        ) by {
            the_first_element_of_a_name_counts(doc, c, "opacity"@, o);
        }
    }
}

/// Does every one of these elements hold a number?
pub open spec fn all_hold_numbers(doc: Seq<XmlItem>, list: Seq<usize>) -> bool {
    forall|k: int|
        0 <= k < list.len() ==> doc[#[trigger] list[k] as int].text is Some && small_number(
            trimmed(doc[list[k] as int].text->0),
        ) is Some
}

/// The number that an element holds.
pub open spec fn held(doc: Seq<XmlItem>, n: usize) -> u32 {
    small_number(trimmed(doc[n as int].text->0))->0
}

proof fn lemma_frames(doc: Seq<XmlItem>, list: Seq<usize>, i: int)
    requires
        0 <= i <= list.len(),
        all_hold_numbers(doc, list),
    ensures
        frames_from(doc, list, i).len() == list.len() - i,
        forall|k: int|
            0 <= k < list.len() - i ==> (#[trigger] frames_from(doc, list, i)[k]) == held(
                doc,
                list[i + k],
            ),
    decreases list.len() - i,
{
    if i < list.len() {
        lemma_frames(doc, list, i + 1);
        let (all, rest) = (frames_from(doc, list, i), frames_from(doc, list, i + 1));
        assert(number_at(doc, list[i]) == Some(held(doc, list[i])));
        assert(all == seq![held(doc, list[i])] + rest);
        assert forall|k: int| 0 <= k < list.len() - i implies (#[trigger] all[k]) == held(
            doc,
            list[i + k],
        ) by {
            if k > 0 {
                assert(all[k] == rest[k - 1]);
                assert(rest[k - 1] == held(doc, list[i + 1 + (k - 1)]));
            }
        }
    }
}

/// Is this what the element in place `n` says of a transition: it leads where
/// the number in it says, weighs what its probability says and a hundred
/// without one, and holds where it is said to?
pub open spec fn is_transition(x: Next<Fixed>, doc: Seq<XmlItem>, n: usize) -> bool {
    let weight = attribute_of(doc, n, "probability"@);
    let only = attribute_of(doc, n, "only"@);
    &&& x.target == held(doc, n)
    &&& weight is None ==> x.probability.raw == 100 * PIXEL
    &&& weight is Some && Fixed::spec_read(trimmed(weight->0)) is Some ==> Some(x.probability)
        == Fixed::spec_read(trimmed(weight->0))
    &&& only is None ==> x.only == Only::Any
    &&& only is Some ==> x.only == only_named(trimmed(only->0))
}

proof fn lemma_nexts(doc: Seq<XmlItem>, list: Seq<usize>, i: int)
    requires
        0 <= i <= list.len(),
        all_hold_numbers(doc, list),
    ensures
        nexts_from::<Fixed>(doc, list, i).len() == list.len() - i,
        forall|k: int|
            0 <= k < list.len() - i ==> is_transition(
                #[trigger] nexts_from::<Fixed>(doc, list, i)[k],
                doc,
                list[i + k],
            ),
    decreases list.len() - i,
{
    if i < list.len() {
        lemma_nexts(doc, list, i + 1);
        let (all, rest) = (
            nexts_from::<Fixed>(doc, list, i),
            nexts_from::<Fixed>(doc, list, i + 1),
        );
        assert(number_at(doc, list[i]) == Some(held(doc, list[i])));
        let first = next_at::<Fixed>(doc, list[i])->0;
        assert(is_transition(first, doc, list[i]));
        assert(all == seq![first] + rest);
        assert forall|k: int| 0 <= k < list.len() - i implies is_transition(
            #[trigger] all[k],
            doc,
            list[i + k],
        ) by {
            if k > 0 {
                assert(all[k] == rest[k - 1]);
                assert(is_transition(rest[k - 1], doc, list[i + 1 + (k - 1)]));
            }
        }
    }
}

/// Are these the transitions that the elements called `next` inside that in
/// place `c` say, one for one?
pub open spec fn are_transitions(list: Seq<Next<Fixed>>, doc: Seq<XmlItem>, c: usize) -> bool {
    let told = children_of(doc, c, "next"@);
    all_hold_numbers(doc, told) ==> list.len() == told.len() && forall|k: int|
        0 <= k < list.len() ==> is_transition(#[trigger] list[k], doc, told[k])
}

/// An animation is what its element says: its frames and what comes next are
/// in its sequence, what it does at a border and in mid-air in the elements
/// for that, and where it starts and ends in theirs.
pub proof fn an_animation_is_told_by_its_element(
    a: Animation<Fixed>,
    doc: Seq<XmlItem>,
    n: usize,
    sequence: usize,
    border: usize,
    gravity: usize,
)
    requires
        doc.len() <= usize::MAX,
        reads_animation(a, doc, n),
        is_first(doc, n, "sequence"@, sequence),
    ensures
        ({
            let id = attribute_of(doc, n, "id"@);
            let frames = children_of(doc, sequence, "frame"@);
            let repeat = attribute_of(doc, sequence, "repeat"@);
            let from = attribute_of(doc, sequence, "repeatfrom"@);
            &&& id is Some && small_number(trimmed(id->0)) == Some(a.id)
            &&& is_told(doc, n, "name"@, seq![], a.name@)
            &&& reads_endpoint(a.start, doc, n, "start"@)
            &&& reads_endpoint(a.end, doc, n, "end"@)
            &&& all_hold_numbers(doc, frames) ==> a.frames@.len() == frames.len() && forall|k: int|
                0 <= k < frames.len() ==> (#[trigger] a.frames@[k]) == held(doc, frames[k])
            &&& repeat is None ==> a.repeat@ == "0"@
            &&& repeat is Some && trimmed(repeat->0).len() > 0 ==> a.repeat@ == trimmed(repeat->0)
            &&& from is None ==> a.repeat_from == 0
            &&& from is Some && small_number(trimmed(from->0)) is Some ==> a.repeat_from
                == small_number(trimmed(from->0))->0
            &&& are_transitions(a.next@, doc, sequence)
            &&& is_first(doc, n, "border"@, border) ==> are_transitions(a.border@, doc, border)
            &&& is_first(doc, n, "gravity"@, gravity) ==> are_transitions(a.gravity@, doc, gravity)
            &&& (forall|j: int| !#[trigger] is_called(doc, n, "border"@, j)) ==> a.border@.len()
                == 0
            &&& (forall|j: int| !#[trigger] is_called(doc, n, "gravity"@, j)) ==> a.gravity@.len()
                == 0
        }),
{
    the_first_element_of_a_name_counts(doc, n, "sequence"@, sequence);
    the_first_element_of_a_name_counts(doc, n, "border"@, border);
    the_first_element_of_a_name_counts(doc, n, "gravity"@, gravity);
    lemma_told(doc, n, "name"@, seq![]);
    assert(a.name@ == expr_in(doc, n, "name"@, seq![]));
    let frames = children_of(doc, sequence, "frame"@);
    if all_hold_numbers(doc, frames) {
        lemma_frames(doc, frames, 0);
        assert forall|k: int| 0 <= k < frames.len() implies (#[trigger] a.frames@[k]) == held(
            doc,
            frames[k],
        ) by {
            assert(frames_from(doc, frames, 0)[k] == held(doc, frames[0 + k]));
        }
    }
    lemma_transitions(doc, sequence);
    if is_first(doc, n, "border"@, border) {
        lemma_transitions(doc, border);
    }
    if is_first(doc, n, "gravity"@, gravity) {
        lemma_transitions(doc, gravity);
    }
}

proof fn lemma_transitions(doc: Seq<XmlItem>, c: usize)
    ensures
        are_transitions(nexts_in::<Fixed>(doc, Some(c)), doc, c),
{
    let told = children_of(doc, c, "next"@);
    let list = nexts_in::<Fixed>(doc, Some(c));
    if all_hold_numbers(doc, told) {
        lemma_nexts(doc, told, 0);
        assert forall|k: int| 0 <= k < list.len() implies is_transition(
            #[trigger] list[k],
            doc,
            told[k],
        ) by {
            assert(is_transition(nexts_from::<Fixed>(doc, told, 0)[k], doc, told[0 + k]));
        }
    }
}

/// An animation flips the sheep at its end where its sequence says so, in
/// letters of either size, and does not where it says nothing.
pub proof fn an_animation_flips_where_it_says_so(
    a: Animation<Fixed>,
    doc: Seq<XmlItem>,
    n: usize,
    sequence: usize,
    c: usize,
)
    requires
        doc.len() <= usize::MAX,
        reads_animation(a, doc, n),
        is_first(doc, n, "sequence"@, sequence),
    ensures
        is_first(doc, sequence, "action"@, c) && doc[c as int].text is Some && trimmed(
            doc[c as int].text->0,
        ) == "flip"@ ==> a.action is Flip,
        is_first(doc, sequence, "action"@, c) && doc[c as int].text is Some && trimmed(
            doc[c as int].text->0,
        ) == "FLIP"@ ==> a.action is Flip,
        is_first(doc, sequence, "action"@, c) && doc[c as int].text is Some && trimmed(
            doc[c as int].text->0,
        ).len() != 4 ==> a.action is Nothing,
        (forall|j: int| !#[trigger] is_called(doc, sequence, "action"@, j)) ==> a.action is Nothing,
{
    reveal_strlit("flip");
    reveal_strlit("FLIP");
    the_first_element_of_a_name_counts(doc, n, "sequence"@, sequence);
    the_first_element_of_a_name_counts(doc, sequence, "action"@, c);
}

/// The words for where a transition holds, and where it then does.
pub proof fn a_transition_holds_where_its_word_says(at: Situation, more: Seq<char>)
    ensures
        at.allows(only_named("window"@)) == at.on_window,
        at.allows(only_named("taskbar"@)) == at.on_taskbar,
        at.allows(only_named("vertical"@)) == at.on_vertical,
        at.allows(only_named("horizontal"@ + more)) == at.on_horizontal,
        at.allows(only_named("none"@)),
{
    reveal_strlit("window");
    reveal_strlit("taskbar");
    reveal_strlit("vertical");
    reveal_strlit("horizontal");
    reveal_strlit("none");
    let word = "horizontal"@ + more;
    assert(word[0] == 'h');
    assert("window"@[0] == 'w' && "taskbar"@[0] == 't' && "vertical"@[0] == 'v' && "none"@[0]
        == 'n');
    assert(word.take(10) == "horizontal"@);
}

// -- the pet --

/// A spawn point is what its element says: how much it weighs, where it is and
/// what it leads to, the first animation where that is not said.
pub proof fn a_spawn_point_is_told_by_its_element(
    s: Spawn<Fixed>,
    doc: Seq<XmlItem>,
    n: usize,
    c: usize,
)
    requires
        doc.len() <= usize::MAX,
        reads_spawn(s, doc, n),
    ensures
        ({
            let weight = attribute_of(doc, n, "probability"@);
            &&& weight is None ==> s.probability.raw == 100 * PIXEL
            &&& weight is Some && Fixed::spec_read(trimmed(weight->0)) is Some ==> Some(
                s.probability,
            ) == Fixed::spec_read(trimmed(weight->0))
            &&& is_told(doc, n, "x"@, "0"@, s.x@)
            &&& is_told(doc, n, "y"@, "0"@, s.y@)
            &&& is_first(doc, n, "next"@, c) && doc[c as int].text is Some && small_number(
                trimmed(doc[c as int].text->0),
            ) is Some ==> s.next == held(doc, c)
            &&& (forall|j: int| !#[trigger] is_called(doc, n, "next"@, j)) ==> s.next == 1
        }),
{
    the_first_element_of_a_name_counts(doc, n, "next"@, c);
    lemma_told(doc, n, "x"@, "0"@);
    lemma_told(doc, n, "y"@, "0"@);
}

/// A companion is what its element says: what calls it on, where it is put and
/// what it starts with.
pub proof fn a_companion_is_told_by_its_element(c: Child, doc: Seq<XmlItem>, n: usize, k: usize)
    requires
        doc.len() <= usize::MAX,
        reads_child(c, doc, n),
    ensures
        ({
            let caller = attribute_of(doc, n, "animationid"@);
            &&& caller is Some
            &&& small_number(trimmed(caller->0)) == Some(c.animation_id)
            &&& is_told(doc, n, "x"@, "0"@, c.x@)
            &&& is_told(doc, n, "y"@, "0"@, c.y@)
            &&& is_first(doc, n, "next"@, k) ==> c.next == held(doc, k)
        }),
{
    the_first_element_of_a_name_counts(doc, n, "next"@, k);
    lemma_told(doc, n, "x"@, "0"@);
    lemma_told(doc, n, "y"@, "0"@);
}

/// A pet is what the document says: a sprite sheet of so many tiles across and
/// down, sixteen by eleven where that is not said, spawn points one for one,
/// and its animations in the element for them, or at the top where there is
/// none.
pub proof fn a_pet_is_told_by_its_document(
    p: Pet<Fixed>,
    doc: Seq<XmlItem>,
    root: usize,
    image: usize,
    spawns: usize,
    animations: usize,
    c: usize,
)
    requires
        doc.len() <= usize::MAX,
        reads_pet(p, doc, root),
        is_first(doc, root, "image"@, image),
        is_first(doc, root, "spawns"@, spawns),
        is_first(doc, root, "animations"@, animations),
    ensures
        is_first(doc, image, "tilesx"@, c) && doc[c as int].text is Some && small_number(
            trimmed(doc[c as int].text->0),
        ) is Some ==> p.tiles_x == held(doc, c),
        is_first(doc, image, "tilesy"@, c) && doc[c as int].text is Some && small_number(
            trimmed(doc[c as int].text->0),
        ) is Some ==> p.tiles_y == held(doc, c),
        (forall|j: int| !#[trigger] is_called(doc, image, "tilesx"@, j)) ==> p.tiles_x == 16,
        (forall|j: int| !#[trigger] is_called(doc, image, "tilesy"@, j)) ==> p.tiles_y == 11,
        p.spawns@.len() == children_of(doc, spawns, "spawn"@).len(),
        forall|i: int|
            0 <= i < p.spawns@.len() ==> reads_spawn(
                #[trigger] p.spawns@[i],
                doc,
                children_of(doc, spawns, "spawn"@)[i],
            ),
        animation_nodes(doc, root) == children_of(doc, animations, "animation"@),
{
    the_first_element_of_a_name_counts(doc, root, "image"@, image);
    the_first_element_of_a_name_counts(doc, root, "spawns"@, spawns);
    the_first_element_of_a_name_counts(doc, root, "animations"@, animations);
    the_first_element_of_a_name_counts(doc, image, "tilesx"@, c);
    the_first_element_of_a_name_counts(doc, image, "tilesy"@, c);
}

// -- text --

/// A text mentions whatever stands anywhere in it, and nothing else.
pub proof fn a_text_mentions_what_stands_in_it(before: Seq<char>, part: Seq<char>, after: Seq<char>)
    ensures
        mentions(before + part + after, part),
        part.len() > before.len() ==> !mentions(before, part),
{
    let text = before + part + after;
    let rest = text.skip(before.len() as int);
    assert(rest.take(part.len() as int) == part);
    assert(begins_with(text.skip(before.len() as int), part));
}

/// A text is cut at every mark: before the first is the first piece, and what
/// comes after is cut in turn.
pub proof fn a_text_is_cut_at_its_marks(head: Seq<char>, mark: char, rest: Seq<char>)
    requires
        !head.contains(mark),
    ensures
        pieces(head, mark) == seq![head],
        pieces(head + seq![mark] + rest, mark) == seq![head] + pieces(rest, mark),
{
    let text = head + seq![mark] + rest;
    assert forall|k: int| 0 <= k < head.len() implies text[k] != mark by {
        assert(head.contains(head[k]));
    }
    lemma_mark(text, mark, head.len() as int, 0);
    lemma_no_mark(head, mark, 0);
    assert(text.take(head.len() as int) == head);
    assert(text.skip(head.len() as int + 1) == rest);
    assert(head.take(head.len() as int) == head);
}

/// A line ends at a line feed, or at a carriage return with one behind it.
pub proof fn a_line_ends_at_its_feed(line: Seq<char>, rest: Seq<char>)
    requires
        !line.contains('\n'),
        line.len() > 0,
        line.last() != '\r',
    ensures
        lines_of(line) == seq![line],
        lines_of(line + seq!['\n'] + rest) == seq![line] + lines_of(rest),
        lines_of(line + seq!['\r', '\n'] + rest) == seq![line] + lines_of(rest),
        lines_of(seq!['\n'] + rest) == seq![Seq::<char>::empty()] + lines_of(rest),
{
    let n = line.len() as int;
    let unix = line + seq!['\n'] + rest;
    let dos = line + seq!['\r', '\n'] + rest;
    let bare = seq!['\n'] + rest;
    assert forall|k: int| 0 <= k < n implies unix[k] != '\n' && dos[k] != '\n' by {
        assert(line.contains(line[k]));
    }
    lemma_no_mark(line, '\n', 0);
    lemma_mark(unix, '\n', n, 0);
    lemma_mark(dos, '\n', n + 1, 0);
    lemma_mark(bare, '\n', 0, 0);
    assert(unix.take(n) == line);
    assert(unix[n - 1] == line.last());
    assert(unix.skip(n + 1) == rest);
    assert(dos.take(n) == line);
    assert(dos[n] == '\r');
    assert(dos.skip(n + 2) == rest);
    assert(bare.take(0) == Seq::<char>::empty());
    assert(bare.skip(1) == rest);
}

proof fn lemma_mark(text: Seq<char>, mark: char, at: int, from: int)
    requires
        0 <= from <= at < text.len(),
        text[at] == mark,
        forall|k: int| 0 <= k < at ==> text[k] != mark,
    ensures
        place_of(text, mark, from) == at,
    decreases at - from,
{
    if from < at {
        lemma_mark(text, mark, at, from + 1);
    }
}

proof fn lemma_no_mark(text: Seq<char>, mark: char, from: int)
    requires
        0 <= from <= text.len(),
        !text.contains(mark),
    ensures
        place_of(text, mark, from) == text.len(),
    decreases text.len() - from,
{
    if from < text.len() {
        assert(text.contains(text[from]));
        lemma_no_mark(text, mark, from + 1);
    }
}

} // verus!

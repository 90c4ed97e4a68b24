//! Pet files: the XML that a pet's animations are written in.

use vstd::prelude::*;

use crate::anim::{only_named, Action, Animation, Child, Endpoint, Next, Only, Pet, Spawn};
use crate::base64::{decode_base64, decoded};
use crate::number::{one, Number};
use crate::text::{alike, chars_of, read_whole, reads_alike, string_of, trimmed, whole_number};
use crate::xml::{
    attribute, attribute_of, child, child_of, children, children_of, items, root_element,
    root_from, roxmltree_nodes, roxmltree_parse, text, text_in, text_of, trim_text, XmlItem,
    XmlNode,
};

verus! {

/// Why a pet file holds no pet.
#[derive(Debug)]
pub enum PetError {
    /// It is not XML.
    Xml(roxmltree::Error),
    /// It has an animation without a numeric id.
    NoId,
    /// It has no animations.
    NoAnimations,
}

/// A text as a number of at most 32 bits.
pub open spec fn small_number(s: Seq<char>) -> Option<u32> {
    match whole_number(s, u32::MAX as nat) {
        Some(n) => Some(n as u32),
        None => None,
    }
}

/// Reads a number of at most 32 bits.
fn read_small(s: &[char]) -> (r: Option<u32>)
    ensures
        r == small_number(s@),
{
    match read_whole(s, u32::MAX as u64) {
        Some(n) => Some(n as u32),
        None => None,
    }
}

/// The expression in the first element called `name` inside that in place
/// `n`, or `default` where there is none.
pub open spec fn expr_in(doc: Seq<XmlItem>, n: usize, name: Seq<char>, default: Seq<char>) -> Seq<
    char,
> {
    match text_in(doc, n, name) {
        Some(t) if t.len() > 0 => t,
        _ => default,
    }
}

/// Reads an expression.
fn expr_of(nodes: &Vec<XmlNode>, n: usize, name: &str, default: &str) -> (r: String)
    ensures
        r@ == expr_in(items(nodes@), n, name@, default@),
{
    match text_of(nodes, n, name) {
        Some(t) => if t.len() > 0 {
            return string_of(t.as_slice());
        },
        None => {},
    }
    default.to_string()
}

/// The weight in an element's `probability`, a hundred where there is none.
pub open spec fn weight_of<N: Number>(doc: Seq<XmlItem>, n: usize) -> N {
    match attribute_of(doc, n, "probability"@) {
        Some(p) => match N::spec_read(trimmed(p)) {
            Some(w) => w,
            None => N::whole(100),
        },
        None => N::whole(100),
    }
}

/// Reads a weight.
fn read_weight<N: Number>(nodes: &Vec<XmlNode>, n: usize) -> (r: N)
    requires
        n < nodes@.len(),
    ensures
        r == weight_of::<N>(items(nodes@), n),
{
    match attribute(nodes, n, "probability") {
        Some(p) => {
            let t = trim_text(p);
            match N::read(string_of(t.as_slice()).as_str()) {
                Some(w) => w,
                None => N::whole(100),
            }
        },
        None => N::whole(100),
    }
}

/// The opacity an endpoint says, or opaque.
pub open spec fn opacity_in<N: Number>(doc: Seq<XmlItem>, n: usize) -> N {
    match text_in(doc, n, "opacity"@) {
        Some(t) => match N::spec_read(t) {
            Some(v) => v,
            None => one(),
        },
        None => one(),
    }
}

/// Is this the endpoint that the element called `name` inside that in place
/// `n` says?
pub open spec fn reads_endpoint<N: Number>(
    e: Endpoint<N>,
    doc: Seq<XmlItem>,
    n: usize,
    name: Seq<char>,
) -> bool {
    match child_of(doc, n, name) {
        Some(c) => {
            &&& e.x@ == expr_in(doc, c, "x"@, "0"@)
            &&& e.y@ == expr_in(doc, c, "y"@, "0"@)
            &&& e.interval@ == expr_in(doc, c, "interval"@, "1000"@)
            &&& e.offset_y@ == expr_in(doc, c, "offsety"@, "0"@)
            &&& e.opacity == opacity_in::<N>(doc, c)
        },
        None => {
            &&& e.x@ == "0"@
            &&& e.y@ == "0"@
            &&& e.interval@ == "1000"@
            &&& e.offset_y@ == "0"@
            &&& e.opacity == one::<N>()
        },
    }
}

/// Reads an endpoint.
fn parse_endpoint<N: Number>(nodes: &Vec<XmlNode>, parent: usize, name: &str) -> (r: Endpoint<N>)
    ensures
        reads_endpoint(r, items(nodes@), parent, name@),
{
    let Some(n) = child(nodes, parent, name) else {
        return Endpoint::default();
    };
    let opacity = match text_of(nodes, n, "opacity") {
        Some(t) => match N::read(string_of(t.as_slice()).as_str()) {
            Some(v) => v,
            None => one(),
        },
        None => one(),
    };
    Endpoint {
        x: expr_of(nodes, n, "x", "0"),
        y: expr_of(nodes, n, "y", "0"),
        interval: expr_of(nodes, n, "interval", "1000"),
        offset_y: expr_of(nodes, n, "offsety", "0"),
        opacity,
    }
}

/// The number an element holds, if it holds one.
pub open spec fn number_at(doc: Seq<XmlItem>, n: usize) -> Option<u32> {
    match doc[n as int].text {
        Some(t) => small_number(trimmed(t)),
        None => None,
    }
}

/// Reads the number an element holds.
fn read_number(nodes: &Vec<XmlNode>, n: usize) -> (r: Option<u32>)
    requires
        n < nodes@.len(),
    ensures
        r == number_at(items(nodes@), n),
{
    match text(nodes, n) {
        Some(t) => {
            let t = trim_text(t);
            read_small(t.as_slice())
        },
        None => None,
    }
}

/// The transition an element says, if it leads anywhere.
pub open spec fn next_at<N: Number>(doc: Seq<XmlItem>, n: usize) -> Option<Next<N>> {
    match number_at(doc, n) {
        Some(target) => Some(
            Next {
                probability: weight_of::<N>(doc, n),
                only: match attribute_of(doc, n, "only"@) {
                    Some(s) => only_named(trimmed(s)),
                    None => Only::Any,
                },
                target,
            },
        ),
        None => None,
    }
}

/// Reads a transition.
fn parse_next<N: Number>(nodes: &Vec<XmlNode>, n: usize) -> (r: Option<Next<N>>)
    requires
        n < nodes@.len(),
    ensures
        r == next_at::<N>(items(nodes@), n),
{
    match read_number(nodes, n) {
        Some(target) => Some(
            Next {
                probability: read_weight(nodes, n),
                only: Only::parse(attribute(nodes, n, "only")),
                target,
            },
        ),
        None => None,
    }
}

/// The transitions that the elements from place `i` of the list on say.
pub open spec fn nexts_from<N: Number>(doc: Seq<XmlItem>, list: Seq<usize>, i: int) -> Seq<Next<N>>
    decreases list.len() - i,
{
    if 0 <= i < list.len() {
        match next_at::<N>(doc, list[i]) {
            Some(n) => seq![n] + nexts_from::<N>(doc, list, i + 1),
            None => nexts_from::<N>(doc, list, i + 1),
        }
    } else {
        seq![]
    }
}

/// The transitions inside an element, if there is such an element.
pub open spec fn nexts_in<N: Number>(doc: Seq<XmlItem>, parent: Option<usize>) -> Seq<Next<N>> {
    match parent {
        Some(p) => nexts_from::<N>(doc, children_of(doc, p, "next"@), 0),
        None => seq![],
    }
}

/// Reads the transitions inside an element.
fn parse_next_list<N: Number>(nodes: &Vec<XmlNode>, parent: Option<usize>) -> (r: Vec<Next<N>>)
    ensures
        r@ == nexts_in::<N>(items(nodes@), parent),
{
    let mut out: Vec<Next<N>> = Vec::new();
    let Some(parent) = parent else {
        return out;
    };
    let ghost doc = items(nodes@);
    let list = children(nodes, parent, "next");
    let mut i: usize = 0;
    while i < list.len()
        invariant
            i <= list@.len(),
            doc == items(nodes@),
            forall|k: int| 0 <= k < list@.len() ==> (#[trigger] list@[k]) < nodes@.len(),
            nexts_from::<N>(doc, list@, 0) == out@ + nexts_from::<N>(doc, list@, i as int),
        decreases list@.len() - i,
    {
        if let Some(n) = parse_next::<N>(nodes, list[i]) {
            let ghost before = out@;
            out.push(n);
            assert(before + (seq![n] + nexts_from::<N>(doc, list@, i + 1)) == out@ + nexts_from::<
                N,
            >(doc, list@, i + 1));
        }
        i = i + 1;
    }
    assert(out@ + nexts_from::<N>(doc, list@, i as int) == out@);
    out
}

/// The frames that the elements from place `i` of the list on say.
pub open spec fn frames_from(doc: Seq<XmlItem>, list: Seq<usize>, i: int) -> Seq<u32>
    decreases list.len() - i,
{
    if 0 <= i < list.len() {
        match number_at(doc, list[i]) {
            Some(f) => seq![f] + frames_from(doc, list, i + 1),
            None => frames_from(doc, list, i + 1),
        }
    } else {
        seq![]
    }
}

/// The frames of a sequence, if there is one.
pub open spec fn frames_in(doc: Seq<XmlItem>, sequence: Option<usize>) -> Seq<u32> {
    match sequence {
        Some(s) => frames_from(doc, children_of(doc, s, "frame"@), 0),
        None => seq![],
    }
}

/// Reads the frames of a sequence.
fn parse_frames(nodes: &Vec<XmlNode>, sequence: Option<usize>) -> (r: Vec<u32>)
    ensures
        r@ == frames_in(items(nodes@), sequence),
{
    let mut out: Vec<u32> = Vec::new();
    let Some(s) = sequence else {
        return out;
    };
    let ghost doc = items(nodes@);
    let list = children(nodes, s, "frame");
    let mut i: usize = 0;
    while i < list.len()
        invariant
            i <= list@.len(),
            doc == items(nodes@),
            forall|k: int| 0 <= k < list@.len() ==> (#[trigger] list@[k]) < nodes@.len(),
            frames_from(doc, list@, 0) == out@ + frames_from(doc, list@, i as int),
        decreases list@.len() - i,
    {
        if let Some(f) = read_number(nodes, list[i]) {
            let ghost before = out@;
            out.push(f);
            assert(before + (seq![f] + frames_from(doc, list@, i + 1)) == out@ + frames_from(
                doc,
                list@,
                i + 1,
            ));
        }
        i = i + 1;
    }
    assert(out@ + frames_from(doc, list@, i as int) == out@);
    out
}

/// What a sequence does at its end.
pub open spec fn action_in(doc: Seq<XmlItem>, sequence: Option<usize>) -> Action {
    match sequence {
        Some(s) => match text_in(doc, s, "action"@) {
            Some(a) if alike(a, "flip"@) => Action::Flip,
            _ => Action::Nothing,
        },
        None => Action::Nothing,
    }
}

/// Reads what a sequence does at its end.
fn parse_action(nodes: &Vec<XmlNode>, sequence: Option<usize>) -> (r: Action)
    ensures
        r == action_in(items(nodes@), sequence),
{
    let Some(s) = sequence else {
        return Action::Nothing;
    };
    match text_of(nodes, s, "action") {
        Some(a) => {
            let flip = chars_of("flip");
            if reads_alike(a.as_slice(), flip.as_slice()) {
                Action::Flip
            } else {
                Action::Nothing
            }
        },
        None => Action::Nothing,
    }
}

/// How often a sequence repeats.
pub open spec fn repeat_in(doc: Seq<XmlItem>, sequence: Option<usize>) -> Seq<char> {
    match sequence {
        Some(s) => match attribute_of(doc, s, "repeat"@) {
            Some(r) if trimmed(r).len() > 0 => trimmed(r),
            _ => "0"@,
        },
        None => "0"@,
    }
}

/// Reads how often a sequence repeats.
fn parse_repeat(nodes: &Vec<XmlNode>, sequence: Option<usize>) -> (r: String)
    requires
        sequence matches Some(s) ==> s < nodes@.len(),
    ensures
        r@ == repeat_in(items(nodes@), sequence),
{
    if let Some(s) = sequence {
        if let Some(r) = attribute(nodes, s, "repeat") {
            let t = trim_text(r);
            if t.len() > 0 {
                return string_of(t.as_slice());
            }
        }
    }
    "0".to_string()
}

/// The frame that a sequence repeats from.
pub open spec fn repeat_from_in(doc: Seq<XmlItem>, sequence: Option<usize>) -> usize {
    match sequence {
        Some(s) => match attribute_of(doc, s, "repeatfrom"@) {
            Some(r) => match whole_number(trimmed(r), usize::MAX as nat) {
                Some(n) => n as usize,
                None => 0,
            },
            None => 0,
        },
        None => 0,
    }
}

/// Reads the frame that a sequence repeats from.
fn parse_repeat_from(nodes: &Vec<XmlNode>, sequence: Option<usize>) -> (r: usize)
    requires
        sequence matches Some(s) ==> s < nodes@.len(),
    ensures
        r == repeat_from_in(items(nodes@), sequence),
{
    if let Some(s) = sequence {
        if let Some(r) = attribute(nodes, s, "repeatfrom") {
            let t = trim_text(r);
            if let Some(n) = read_whole(t.as_slice(), usize::MAX as u64) {
                return n as usize;
            }
        }
    }
    0
}

/// The id of an animation, if it has a numeric one.
pub open spec fn id_at(doc: Seq<XmlItem>, n: usize) -> Option<u32> {
    match attribute_of(doc, n, "id"@) {
        Some(a) => small_number(trimmed(a)),
        None => None,
    }
}

/// Is this the animation that the element in place `n` says?
pub open spec fn reads_animation<N: Number>(a: Animation<N>, doc: Seq<XmlItem>, n: usize) -> bool {
    let sequence = child_of(doc, n, "sequence"@);
    &&& id_at(doc, n) == Some(a.id)
    &&& a.name@ == match text_in(doc, n, "name"@) {
        Some(t) => t,
        None => seq![],
    }
    &&& reads_endpoint(a.start, doc, n, "start"@)
    &&& reads_endpoint(a.end, doc, n, "end"@)
    &&& a.frames@ == frames_in(doc, sequence)
    &&& a.repeat@ == repeat_in(doc, sequence)
    &&& a.repeat_from == repeat_from_in(doc, sequence)
    &&& a.action == action_in(doc, sequence)
    &&& a.next@ == nexts_in::<N>(doc, sequence)
    &&& a.border@ == nexts_in::<N>(doc, child_of(doc, n, "border"@))
    &&& a.gravity@ == nexts_in::<N>(doc, child_of(doc, n, "gravity"@))
}

/// Reads an animation, which there is one of where it has a numeric id.
fn parse_animation<N: Number>(nodes: &Vec<XmlNode>, n: usize) -> (r: Option<Animation<N>>)
    requires
        n < nodes@.len(),
    ensures
        match r {
            Some(a) => reads_animation(a, items(nodes@), n),
            None => id_at(items(nodes@), n) is None,
        },
{
    let Some(attr) = attribute(nodes, n, "id") else {
        return None;
    };
    let attr = trim_text(attr);
    let Some(id) = read_small(attr.as_slice()) else {
        return None;
    };
    let sequence = child(nodes, n, "sequence");
    let name = match text_of(nodes, n, "name") {
        Some(t) => string_of(t.as_slice()),
        None => String::new(),
    };
    Some(
        Animation {
            id,
            name,
            start: parse_endpoint(nodes, n, "start"),
            end: parse_endpoint(nodes, n, "end"),
            frames: parse_frames(nodes, sequence),
            repeat: parse_repeat(nodes, sequence),
            repeat_from: parse_repeat_from(nodes, sequence),
            action: parse_action(nodes, sequence),
            next: parse_next_list(nodes, sequence),
            border: parse_next_list(nodes, child(nodes, n, "border")),
            gravity: parse_next_list(nodes, child(nodes, n, "gravity")),
        },
    )
}

// -- the list of animations --

/// Where an id last occurs among the first `n` entries; -1 where it does not.
pub open spec fn last_place(ids: Seq<u32>, id: u32, n: int) -> int
    decreases n,
{
    if 0 < n <= ids.len() {
        if ids[n - 1] == id {
            n - 1
        } else {
            last_place(ids, id, n - 1)
        }
    } else {
        -1
    }
}

/// The ids without repeats, in the order in which they first occur.
pub open spec fn distinct(ids: Seq<u32>) -> Seq<u32>
    decreases ids.len(),
{
    if ids.len() == 0 {
        seq![]
    } else {
        let before = distinct(ids.drop_last());
        if before.contains(ids.last()) {
            before
        } else {
            before.push(ids.last())
        }
    }
}

proof fn lemma_distinct(ids: Seq<u32>)
    ensures
        distinct(ids).no_duplicates(),
        forall|j: int| 0 <= j < ids.len() ==> distinct(ids).contains(#[trigger] ids[j]),
        forall|j: int|
            0 <= j < distinct(ids).len() ==> ids.contains(#[trigger] distinct(ids)[j]),
    decreases ids.len(),
{
    if ids.len() > 0 {
        let rest = ids.drop_last();
        lemma_distinct(rest);
        let before = distinct(rest);
        assert forall|j: int| 0 <= j < ids.len() implies distinct(ids).contains(
            #[trigger] ids[j],
        ) by {
            if j < rest.len() {
                assert(before.contains(rest[j]));
                let k = choose|k: int| 0 <= k < before.len() && before[k] == rest[j];
                assert(distinct(ids)[k] == ids[j]);
            } else if !before.contains(ids.last()) {
                assert(distinct(ids)[before.len() as int] == ids.last());
            }
        }
        assert forall|j: int| 0 <= j < distinct(ids).len() implies ids.contains(
            #[trigger] distinct(ids)[j],
        ) by {
            if j < before.len() {
                assert(rest.contains(before[j]));
                let k = choose|k: int| 0 <= k < rest.len() && rest[k] == before[j];
                assert(ids[k] == distinct(ids)[j]);
            } else {
                assert(ids[ids.len() - 1] == distinct(ids)[j]);
            }
        }
    }
}

proof fn lemma_last_place(ids: Seq<u32>, id: u32, n: int)
    requires
        0 <= n <= ids.len(),
    ensures
        -1 <= last_place(ids, id, n) < n,
        last_place(ids, id, n) >= 0 ==> ids[last_place(ids, id, n)] == id,
        last_place(ids, id, n) < 0 ==> forall|j: int| 0 <= j < n ==> (#[trigger] ids[j]) != id,
    decreases n,
{
    if n > 0 {
        lemma_last_place(ids, id, n - 1);
    }
}

/// The ids of these animations.
pub open spec fn ids_of(doc: Seq<XmlItem>, list: Seq<usize>) -> Seq<u32> {
    list.map_values(|n: usize| id_at(doc, n)->0)
}

/// Do all of them have a numeric id?
pub open spec fn all_have_ids(doc: Seq<XmlItem>, list: Seq<usize>) -> bool {
    forall|k: int| 0 <= k < list.len() ==> id_at(doc, #[trigger] list[k]) is Some
}

/// Are these the animations that the elements say? Of several with one id the
/// last counts, in the place of the first.
pub open spec fn reads_animations<N: Number>(
    v: Seq<Animation<N>>,
    doc: Seq<XmlItem>,
    list: Seq<usize>,
) -> bool {
    let ids = ids_of(doc, list);
    &&& v.len() == distinct(ids).len()
    &&& forall|j: int|
        0 <= j < v.len() ==> (#[trigger] v[j]).id == distinct(ids)[j] && reads_animation(
            v[j],
            doc,
            list[last_place(ids, v[j].id, ids.len() as int)],
        )
}

/// Where in a list an animation has this id.
fn place_of_id<N: Number>(v: &Vec<Animation<N>>, id: u32) -> (r: Option<usize>)
    ensures
        match r {
            Some(k) => k < v@.len() && v@[k as int].id == id,
            None => forall|j: int| 0 <= j < v@.len() ==> (#[trigger] v@[j]).id != id,
        },
{
    let mut i: usize = 0;
    while i < v.len()
        invariant
            i <= v@.len(),
            forall|j: int| 0 <= j < i ==> (#[trigger] v@[j]).id != id,
        decreases v@.len() - i,
    {
        if v[i].id == id {
            return Some(i);
        }
        i = i + 1;
    }
    None
}

proof fn lemma_one_more_animation<N: Number>(
    old_v: Seq<Animation<N>>,
    new_v: Seq<Animation<N>>,
    a: Animation<N>,
    doc: Seq<XmlItem>,
    list: Seq<usize>,
    n: usize,
    at: Option<usize>,
)
    requires
        reads_animations(old_v, doc, list),
        reads_animation(a, doc, n),
        match at {
            Some(k) => k < old_v.len() && old_v[k as int].id == a.id && new_v == old_v.update(
                k as int,
                a,
            ),
            None => (forall|j: int| 0 <= j < old_v.len() ==> (#[trigger] old_v[j]).id != a.id)
                && new_v == old_v.push(a),
        },
    ensures
        reads_animations(new_v, doc, list.push(n)),
{
    let ids = ids_of(doc, list);
    let longer = list.push(n);
    let more = ids_of(doc, longer);
    assert(more == ids.push(a.id));
    assert(more.drop_last() == ids);
    lemma_distinct(ids);
    let before = distinct(ids);
    match at {
        Some(k) => {
            assert(before[k as int] == a.id);
        },
        None => {
            assert(!before.contains(a.id)) by {
                if before.contains(a.id) {
                    let j = choose|j: int| 0 <= j < before.len() && before[j] == a.id;
                    assert(old_v[j].id == a.id);
                }
            }
        },
    }
    assert forall|j: int| 0 <= j < new_v.len() implies (#[trigger] new_v[j]).id == distinct(more)[j]
        && reads_animation(
        new_v[j],
        doc,
        longer[last_place(more, new_v[j].id, more.len() as int)],
    ) by {
        if new_v[j].id == a.id {
            assert(last_place(more, a.id, more.len() as int) == more.len() - 1);
            assert(longer[more.len() - 1] == n);
            match at {
                Some(k) => {
                    assert(before[k as int] == a.id);
                    if j != k {
                        assert(old_v[j].id == before[j]);
                        assert(before.no_duplicates());
                    }
                },
                None => {
                    if j < old_v.len() {
                        assert(old_v[j].id == new_v[j].id);
                    }
                },
            }
        } else {
            assert(new_v[j] == old_v[j]);
            let id = old_v[j].id;
            lemma_last_place_of_prefix(ids, more, id, ids.len() as int);
            assert(last_place(more, id, more.len() as int) == last_place(
                ids,
                id,
                ids.len() as int,
            ));
            lemma_last_place(ids, id, ids.len() as int);
            assert(ids.contains(before[j]));
        }
    }
}

proof fn lemma_last_place_of_prefix(a: Seq<u32>, b: Seq<u32>, id: u32, n: int)
    requires
        n <= a.len(),
        n <= b.len(),
        forall|i: int| 0 <= i < n ==> a[i] == b[i],
    ensures
        last_place(a, id, n) == last_place(b, id, n),
    decreases n,
{
    if n > 0 {
        lemma_last_place_of_prefix(a, b, id, n - 1);
    }
}

/// Reads the animations in a list of elements, which there are where all of
/// them have a numeric id.
fn parse_animations<N: Number>(nodes: &Vec<XmlNode>, list: &Vec<usize>) -> (r: Option<
    Vec<Animation<N>>,
>)
    requires
        forall|k: int| 0 <= k < list@.len() ==> (#[trigger] list@[k]) < nodes@.len(),
    ensures
        match r {
            Some(v) => all_have_ids(items(nodes@), list@) && reads_animations(
                v@,
                items(nodes@),
                list@,
            ),
            None => !all_have_ids(items(nodes@), list@),
        },
{
    let ghost doc = items(nodes@);
    let mut out: Vec<Animation<N>> = Vec::new();
    let mut i: usize = 0;
    assert(list@.take(0) == Seq::<usize>::empty());
    while i < list.len()
        invariant
            i <= list@.len(),
            doc == items(nodes@),
            forall|k: int| 0 <= k < list@.len() ==> (#[trigger] list@[k]) < nodes@.len(),
            forall|k: int| 0 <= k < i ==> id_at(doc, #[trigger] list@[k]) is Some,
            reads_animations(out@, doc, list@.take(i as int)),
        decreases list@.len() - i,
    {
        let n: usize = list[i];
        let Some(a) = parse_animation::<N>(nodes, n) else {
            assert(id_at(doc, list@[i as int]) is None);
            return None;
        };
        let ghost before = out@;
        let ghost told = a;
        let at = place_of_id(&out, a.id);
        match at {
            Some(k) => {
                out.set(k, a);
            },
            None => {
                out.push(a);
            },
        }
        proof {
            lemma_one_more_animation(before, out@, told, doc, list@.take(i as int), n, at);
            assert(list@.take(i + 1) == list@.take(i as int).push(n));
        }
        i = i + 1;
    }
    assert(list@.take(i as int) == list@);
    Some(out)
}

// -- comings and goings --

/// Is this the spawn point that the element in place `n` says?
pub open spec fn reads_spawn<N: Number>(s: Spawn<N>, doc: Seq<XmlItem>, n: usize) -> bool {
    &&& s.probability == weight_of::<N>(doc, n)
    &&& s.x@ == expr_in(doc, n, "x"@, "0"@)
    &&& s.y@ == expr_in(doc, n, "y"@, "0"@)
    &&& s.next == match child_of(doc, n, "next"@) {
        Some(c) => match number_at(doc, c) {
            Some(id) => id,
            None => 1,
        },
        None => 1,
    }
}

/// Reads a spawn point.
fn parse_spawn<N: Number>(nodes: &Vec<XmlNode>, n: usize) -> (r: Spawn<N>)
    requires
        n < nodes@.len(),
    ensures
        reads_spawn(r, items(nodes@), n),
{
    let next = match child(nodes, n, "next") {
        Some(c) => match read_number(nodes, c) {
            Some(id) => id,
            None => 1,
        },
        None => 1,
    };
    Spawn {
        probability: read_weight(nodes, n),
        x: expr_of(nodes, n, "x", "0"),
        y: expr_of(nodes, n, "y", "0"),
        next,
    }
}

/// The elements called `name` inside the first called `list` inside that in
/// place `root`.
pub open spec fn listed(
    doc: Seq<XmlItem>,
    root: usize,
    list: Seq<char>,
    name: Seq<char>,
) -> Seq<usize> {
    match child_of(doc, root, list) {
        Some(n) => children_of(doc, n, name),
        None => seq![],
    }
}

/// The elements in a list of the document.
fn entries(nodes: &Vec<XmlNode>, root: usize, list: &str, name: &str) -> (r: Vec<usize>)
    ensures
        r@ == listed(items(nodes@), root, list@, name@),
        forall|k: int| 0 <= k < r@.len() ==> (#[trigger] r@[k]) < nodes@.len(),
{
    match child(nodes, root, list) {
        Some(n) => children(nodes, n, name),
        None => Vec::new(),
    }
}

/// Are these the spawn points that the elements say, one for one?
pub open spec fn reads_spawns<N: Number>(
    v: Seq<Spawn<N>>,
    doc: Seq<XmlItem>,
    list: Seq<usize>,
) -> bool {
    v.len() == list.len() && forall|i: int|
        0 <= i < v.len() ==> reads_spawn(#[trigger] v[i], doc, list[i])
}

/// Reads the spawn points.
fn parse_spawns<N: Number>(nodes: &Vec<XmlNode>, root: usize) -> (r: Vec<Spawn<N>>)
    ensures
        reads_spawns(
            r@,
            items(nodes@),
            listed(items(nodes@), root, "spawns"@, "spawn"@),
        ),
{
    let list = entries(nodes, root, "spawns", "spawn");
    let mut out: Vec<Spawn<N>> = Vec::new();
    let mut i: usize = 0;
    while i < list.len()
        invariant
            i <= list@.len(),
            out@.len() == i,
            forall|k: int| 0 <= k < list@.len() ==> (#[trigger] list@[k]) < nodes@.len(),
            forall|k: int| 0 <= k < i ==> reads_spawn(#[trigger] out@[k], items(nodes@), list@[k]),
        decreases list@.len() - i,
    {
        out.push(parse_spawn(nodes, list[i]));
        i = i + 1;
    }
    out
}

/// The animation that calls a companion on.
pub open spec fn caller_at(doc: Seq<XmlItem>, n: usize) -> Option<u32> {
    match attribute_of(doc, n, "animationid"@) {
        Some(a) => small_number(trimmed(a)),
        None => None,
    }
}

/// The animation that a companion starts with.
pub open spec fn start_at(doc: Seq<XmlItem>, n: usize) -> Option<u32> {
    match text_in(doc, n, "next"@) {
        Some(t) => small_number(t),
        None => None,
    }
}

/// Does the element say a whole companion?
pub open spec fn says_child(doc: Seq<XmlItem>, n: usize) -> bool {
    caller_at(doc, n) is Some && start_at(doc, n) is Some
}

/// Is this the companion that the element in place `n` says?
pub open spec fn reads_child(c: Child, doc: Seq<XmlItem>, n: usize) -> bool {
    &&& caller_at(doc, n) == Some(c.animation_id)
    &&& c.x@ == expr_in(doc, n, "x"@, "0"@)
    &&& c.y@ == expr_in(doc, n, "y"@, "0"@)
    &&& start_at(doc, n) == Some(c.next)
}

/// Reads a companion.
fn parse_child(nodes: &Vec<XmlNode>, n: usize) -> (r: Option<Child>)
    requires
        n < nodes@.len(),
    ensures
        match r {
            Some(c) => reads_child(c, items(nodes@), n),
            None => !says_child(items(nodes@), n),
        },
{
    let Some(a) = attribute(nodes, n, "animationid") else {
        return None;
    };
    let a = trim_text(a);
    let Some(animation_id) = read_small(a.as_slice()) else {
        return None;
    };
    let Some(t) = text_of(nodes, n, "next") else {
        return None;
    };
    let Some(next) = read_small(t.as_slice()) else {
        return None;
    };
    Some(
        Child {
            animation_id,
            x: expr_of(nodes, n, "x", "0"),
            y: expr_of(nodes, n, "y", "0"),
            next,
        },
    )
}

/// Those of the elements from place `i` on that say a whole companion.
pub open spec fn whole_children_from(doc: Seq<XmlItem>, list: Seq<usize>, i: int) -> Seq<usize>
    decreases list.len() - i,
{
    if 0 <= i < list.len() {
        if says_child(doc, list[i]) {
            seq![list[i]] + whole_children_from(doc, list, i + 1)
        } else {
            whole_children_from(doc, list, i + 1)
        }
    } else {
        seq![]
    }
}

/// Are these the companions that the elements say? Those that are not whole
/// are passed over.
pub open spec fn reads_children(v: Seq<Child>, doc: Seq<XmlItem>, list: Seq<usize>) -> bool {
    let whole = whole_children_from(doc, list, 0);
    v.len() == whole.len() && forall|i: int|
        0 <= i < v.len() ==> reads_child(#[trigger] v[i], doc, whole[i])
}

/// Reads the companions.
fn parse_children(nodes: &Vec<XmlNode>, root: usize) -> (r: Vec<Child>)
    ensures
        reads_children(
            r@,
            items(nodes@),
            listed(items(nodes@), root, "childs"@, "child"@),
        ),
{
    let ghost doc = items(nodes@);
    let list = entries(nodes, root, "childs", "child");
    let mut out: Vec<Child> = Vec::new();
    let ghost mut done: Seq<usize> = Seq::empty();
    let mut i: usize = 0;
    assert(done + whole_children_from(doc, list@, 0) == whole_children_from(doc, list@, 0));
    while i < list.len()
        invariant
            i <= list@.len(),
            doc == items(nodes@),
            forall|k: int| 0 <= k < list@.len() ==> (#[trigger] list@[k]) < nodes@.len(),
            whole_children_from(doc, list@, 0) == done + whole_children_from(
                doc,
                list@,
                i as int,
            ),
            out@.len() == done.len(),
            forall|k: int| 0 <= k < done.len() ==> reads_child(#[trigger] out@[k], doc, done[k]),
        decreases list@.len() - i,
    {
        if let Some(c) = parse_child(nodes, list[i]) {
            let ghost before = done;
            out.push(c);
            proof {
                done = done.push(list@[i as int]);
                assert(before + (seq![list@[i as int]] + whole_children_from(doc, list@, i + 1))
                    == done + whole_children_from(doc, list@, i + 1));
            }
        }
        i = i + 1;
    }
    assert(done + whole_children_from(doc, list@, i as int) == done);
    out
}

// -- the whole file --

/// The number in an element of the image, if there is one.
pub open spec fn image_number(
    doc: Seq<XmlItem>,
    image: Option<usize>,
    name: Seq<char>,
    default: u32,
) -> u32 {
    match image {
        Some(n) => match text_in(doc, n, name) {
            Some(t) => match small_number(t) {
                Some(v) => v,
                None => default,
            },
            None => default,
        },
        None => default,
    }
}

/// Reads a number of the image.
fn parse_image_number(
    nodes: &Vec<XmlNode>,
    image: Option<usize>,
    name: &str,
    default: u32,
) -> (r: u32)
    ensures
        r == image_number(items(nodes@), image, name@, default),
{
    if let Some(n) = image {
        if let Some(t) = text_of(nodes, n, name) {
            if let Some(v) = read_small(t.as_slice()) {
                return v;
            }
        }
    }
    default
}

/// The sprite sheet in the image, if there is one.
pub open spec fn sheet_in(doc: Seq<XmlItem>, image: Option<usize>) -> Option<Seq<u8>> {
    match image {
        Some(n) => match child_of(doc, n, "png"@) {
            Some(c) => match doc[c as int].text {
                Some(t) if trimmed(t).len() > 0 => decoded(t),
                _ => None,
            },
            None => None,
        },
        None => None,
    }
}

/// Reads the sprite sheet in the image.
fn parse_sheet(nodes: &Vec<XmlNode>, image: Option<usize>) -> (r: Option<Vec<u8>>)
    ensures
        match r {
            Some(png) => sheet_in(items(nodes@), image) == Some(png@),
            None => sheet_in(items(nodes@), image) is None,
        },
{
    if let Some(n) = image {
        if let Some(c) = child(nodes, n, "png") {
            if let Some(t) = text(nodes, c) {
                if trim_text(t).len() > 0 {
                    return decode_base64(t);
                }
            }
        }
    }
    None
}

/// The elements that say animations. The root element and the animation
/// container share the tag name `animations`, so the inner one is looked for
/// in the root and not anywhere in the document.
pub open spec fn animation_nodes(doc: Seq<XmlItem>, root: usize) -> Seq<usize> {
    match child_of(doc, root, "animations"@) {
        Some(n) => children_of(doc, n, "animation"@),
        None => children_of(doc, root, "animation"@),
    }
}

/// Is this the pet that the element in place `root` says?
pub open spec fn reads_pet<N: Number>(p: Pet<N>, doc: Seq<XmlItem>, root: usize) -> bool {
    let image = child_of(doc, root, "image"@);
    &&& p.tiles_x == image_number(doc, image, "tilesx"@, 16)
    &&& p.tiles_y == image_number(doc, image, "tilesy"@, 11)
    &&& match p.png {
        Some(png) => sheet_in(doc, image) == Some(png@),
        None => sheet_in(doc, image) is None,
    }
    &&& reads_spawns(p.spawns@, doc, listed(doc, root, "spawns"@, "spawn"@))
    &&& reads_animations(p.animations@, doc, animation_nodes(doc, root))
    &&& reads_children(p.children@, doc, listed(doc, root, "childs"@, "child"@))
}

/// What can be wrong with a document as a pet file.
#[derive(Clone, Copy, Debug, PartialEq, Eq, Structural)]
pub enum PetFault {
    /// It has an animation without a numeric id.
    NoId,
    /// It has no animations.
    NoAnimations,
}

/// What is wrong with a document as a pet file, if anything is.
pub open spec fn fault_in(doc: Seq<XmlItem>) -> Option<PetFault> {
    match root_from(doc, 0) {
        None => Some(PetFault::NoAnimations),
        Some(root) => if !all_have_ids(doc, animation_nodes(doc, root)) {
            Some(PetFault::NoId)
        } else if animation_nodes(doc, root).len() == 0 {
            Some(PetFault::NoAnimations)
        } else {
            None
        },
    }
}

proof fn lemma_animations_differ<N: Number>(p: Pet<N>, doc: Seq<XmlItem>, root: usize)
    requires
        reads_pet(p, doc, root),
    ensures
        p.ids_differ(),
        p.animations@.len() == 0 ==> animation_nodes(doc, root).len() == 0,
{
    let list = animation_nodes(doc, root);
    let ids = ids_of(doc, list);
    lemma_distinct(ids);
    assert forall|i: int, j: int| 0 <= i < j < p.animations@.len() implies (
    #[trigger] p.animations@[i]).id != (#[trigger] p.animations@[j]).id by {
        assert(distinct(ids)[i] != distinct(ids)[j]);
    }
    if p.animations@.len() == 0 && list.len() > 0 {
        assert(distinct(ids).contains(ids[0]));
    }
}

impl<N: Number> Pet<N> {
    /// The pet in a document.
    pub fn from_nodes(nodes: &Vec<XmlNode>) -> (r: Result<Pet<N>, PetFault>)
        ensures
            match r {
                Ok(p) => fault_in(items(nodes@)) is None && reads_pet(
                    p,
                    items(nodes@),
                    root_from(items(nodes@), 0)->0,
                ) && p.ids_differ(),
                Err(f) => fault_in(items(nodes@)) == Some(f),
            },
    {
        let ghost doc = items(nodes@);
        let Some(root) = root_element(nodes) else {
            return Err(PetFault::NoAnimations);
        };
        let image = child(nodes, root, "image");
        let list = match child(nodes, root, "animations") {
            Some(n) => children(nodes, n, "animation"),
            None => children(nodes, root, "animation"),
        };
        let Some(animations) = parse_animations(nodes, &list) else {
            return Err(PetFault::NoId);
        };
        if list.len() == 0 {
            return Err(PetFault::NoAnimations);
        }
        let pet = Pet {
            tiles_x: parse_image_number(nodes, image, "tilesx", 16),
            tiles_y: parse_image_number(nodes, image, "tilesy", 11),
            png: parse_sheet(nodes, image),
            spawns: parse_spawns(nodes, root),
            animations,
            children: parse_children(nodes, root),
        };
        proof {
            lemma_animations_differ(pet, doc, root);
        }
        Ok(pet)
    }

    /// Reads a pet file.
    pub fn parse(xml: &str) -> (r: Result<Pet<N>, PetError>)
        ensures
            match roxmltree_nodes(xml@) {
                None => r matches Err(PetError::Xml(_)),
                Some(doc) => match fault_in(doc) {
                    Some(PetFault::NoId) => r matches Err(PetError::NoId),
                    Some(PetFault::NoAnimations) => r matches Err(PetError::NoAnimations),
                    None => r matches Ok(p) && reads_pet(p, doc, root_from(doc, 0)->0)
                        && p.ids_differ(),
                },
            },
    {
        let nodes = match roxmltree_parse(xml) {
            Ok(nodes) => nodes,
            Err(e) => {
                return Err(PetError::Xml(e));
            },
        };
        match Pet::from_nodes(&nodes) {
            Ok(p) => Ok(p),
            Err(PetFault::NoId) => Err(PetError::NoId),
            Err(PetFault::NoAnimations) => Err(PetError::NoAnimations),
        }
    }
}

/// Of several animations with one id the last in the file is the one the pet
/// has, and it has one for every id in the file.
pub proof fn the_last_animation_counts<N: Number>(
    p: Pet<N>,
    doc: Seq<XmlItem>,
    root: usize,
    k: int,
)
    requires
        reads_pet(p, doc, root),
        0 <= k < animation_nodes(doc, root).len(),
        id_at(doc, animation_nodes(doc, root)[k]) is Some,
        forall|j: int|
            k < j < animation_nodes(doc, root).len() ==> id_at(
                doc,
                #[trigger] animation_nodes(doc, root)[j],
            ) != id_at(doc, animation_nodes(doc, root)[k]),
        all_have_ids(doc, animation_nodes(doc, root)),
    ensures
        exists|a: Animation<N>|
            p.animations@.contains(a) && reads_animation(a, doc, animation_nodes(doc, root)[k]),
{
    let list = animation_nodes(doc, root);
    let ids = ids_of(doc, list);
    let id = ids[k];
    lemma_distinct(ids);
    assert(distinct(ids).contains(ids[k]));
    let j = choose|j: int| 0 <= j < distinct(ids).len() && distinct(ids)[j] == id;
    let a = p.animations@[j];
    assert(a.id == id);
    lemma_last_place(ids, id, ids.len() as int);
    let last = last_place(ids, id, ids.len() as int);
    assert(last == k) by {
        if last < 0 {
            assert(ids[k] != id);
        }
        if last > k {
            assert(id_at(doc, list[last]) is Some);
            assert(ids[last] == id);
        }
        if last < k {
            lemma_last_is_last(ids, id, ids.len() as int, k);
        }
    }
    assert(p.animations@.contains(a));
    assert(reads_animation(a, doc, list[k]));
}

proof fn lemma_last_is_last(ids: Seq<u32>, id: u32, n: int, k: int)
    requires
        0 <= k < n <= ids.len(),
        ids[k] == id,
    ensures
        last_place(ids, id, n) >= k,
    decreases n,
{
    if ids[n - 1] != id {
        lemma_last_is_last(ids, id, n - 1, k);
    }
}

} // verus!

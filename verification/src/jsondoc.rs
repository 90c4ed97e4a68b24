//! JSON documents, laid out flat: every list and object ahead of what is in
//! it, each node with the place of its parent.

use serde_json::from_slice;
use serde_json::Value;
use serde_json::Value::{Array, Bool, Null, Number, Object};
use vstd::prelude::*;

use crate::jsondoc::JsonStep::{Index, Key};
use crate::jsondoc::JsonValue::{Digits, Flag, List, Members, Nil, Text};
use crate::text::{chars_of, is_word};

verus! {

/// The errors of `serde_json`.
#[verifier::external_type_specification]
#[verifier::external_body]
pub struct ExJsonError(serde_json::Error);

/// One step of the way to a value.
#[derive(Debug)]
pub enum JsonStep {
    /// Into an object, to what stands under a key.
    Key(String),
    /// Into a list, to an entry.
    Index(usize),
}

/// Where a step goes.
pub enum JsonPlace {
    Key(Seq<char>),
    Index(usize),
}

impl View for JsonStep {
    type V = JsonPlace;

    open spec fn view(&self) -> JsonPlace {
        match self {
            JsonStep::Key(k) => JsonPlace::Key(k@),
            JsonStep::Index(i) => JsonPlace::Index(*i),
        }
    }
}

/// What stands in one place of a document.
#[derive(Debug)]
pub enum JsonValue {
    /// Null.
    Nil,
    /// True or false.
    Flag(bool),
    /// A number, as it is written.
    Digits(String),
    Text(String),
    /// A list, whose entries stand in places of their own.
    List,
    /// An object, whose members stand in places of their own.
    Members,
}

/// What a value says.
pub enum JsonWorth {
    Nil,
    Flag(bool),
    Digits(Seq<char>),
    Text(Seq<char>),
    List,
    Members,
}

impl View for JsonValue {
    type V = JsonWorth;

    open spec fn view(&self) -> JsonWorth {
        match self {
            JsonValue::Nil => JsonWorth::Nil,
            JsonValue::Flag(b) => JsonWorth::Flag(*b),
            JsonValue::Digits(n) => JsonWorth::Digits(n@),
            JsonValue::Text(s) => JsonWorth::Text(s@),
            JsonValue::List => JsonWorth::List,
            JsonValue::Members => JsonWorth::Members,
        }
    }
}

/// A node of a document laid out flat.
#[derive(Debug)]
pub struct JsonNode {
    /// The place of the list or object it is in, which is ahead of its own.
    /// The whole document is in none and gives its own place, the first.
    pub parent: usize,
    /// Which entry or member of its parent it is.
    pub step: JsonStep,
    pub value: JsonValue,
}

/// What a node holds.
pub struct JsonEntry {
    pub parent: usize,
    pub step: JsonPlace,
    pub value: JsonWorth,
}

impl View for JsonNode {
    type V = JsonEntry;

    open spec fn view(&self) -> JsonEntry {
        JsonEntry { parent: self.parent, step: self.step@, value: self.value@ }
    }
}

/// What the nodes hold.
pub open spec fn entries(nodes: Seq<JsonNode>) -> Seq<JsonEntry> {
    nodes.map_values(|n: JsonNode| n@)
}

/// The document `serde_json::from_slice` makes of a text, laid out flat with
/// the whole of it first, if it is one.
pub uninterp spec fn serde_json_nodes(bytes: Seq<u8>) -> Option<Seq<JsonEntry>>;

/// Calls `serde_json::from_slice` and lays the document out flat, every list
/// and object ahead of what is in it. What comes of it is a function of the
/// bytes alone. Nothing more is said of the nodes, nor of the error.
#[verifier::external_body]
pub(crate) fn serde_json_parse(bytes: &[u8]) -> (r: Result<Vec<JsonNode>, serde_json::Error>)
    ensures
        match r {
            Ok(nodes) => serde_json_nodes(bytes@) == Some(entries(nodes@)),
            Err(_) => serde_json_nodes(bytes@) is None,
        },
{
    let mut todo = vec![(0, Index(0), from_slice(bytes)?)];
    let mut nodes = vec![];
    while let Some((parent, step, value)) = todo.pop() {
        let at = nodes.len();
        nodes.push(JsonNode { parent, step, value: match value {
            Null => Nil,
            Bool(b) => Flag(b),
            Number(n) => Digits(n.to_string()),
            Value::String(s) => Text(s),
            Array(a) => { for (i, v) in a.into_iter().enumerate() { todo.push((at, Index(i), v)) } List }
            Object(m) => { for (k, v) in m { todo.push((at, Key(k), v)) } Members }
        } });
    }
    Ok(nodes)
}

// -- finding one's way --

/// The first place from `i` on of what is one step into the list or object in
/// place `parent`.
pub open spec fn step_from(doc: Seq<JsonEntry>, parent: usize, step: JsonPlace, i: int) -> Option<
    usize,
>
    decreases doc.len() - i,
{
    if 0 <= i < doc.len() {
        if doc[i].parent == parent && doc[i].step == step {
            Some(i as usize)
        } else {
            step_from(doc, parent, step, i + 1)
        }
    } else {
        None
    }
}

/// The place of what is one step into the list or object in place `parent`,
/// which stands behind it.
pub open spec fn step_into(doc: Seq<JsonEntry>, parent: usize, step: JsonPlace) -> Option<usize> {
    step_from(doc, parent, step, parent + 1)
}

/// Do the two steps go the same way?
fn same_step(a: &JsonStep, b: &JsonStep) -> (r: bool)
    ensures
        r == (a@ == b@),
{
    match (a, b) {
        (JsonStep::Key(a), JsonStep::Key(b)) => {
            let word = chars_of(a.as_str());
            is_word(word.as_slice(), b.as_str())
        },
        (JsonStep::Index(a), JsonStep::Index(b)) => *a == *b,
        _ => false,
    }
}

/// Takes one step into the list or object in place `parent`.
pub fn take_step(nodes: &Vec<JsonNode>, parent: usize, step: &JsonStep) -> (r: Option<usize>)
    requires
        parent < nodes@.len(),
    ensures
        r == step_into(entries(nodes@), parent, step@),
        r matches Some(n) ==> n < nodes@.len(),
{
    let ghost doc = entries(nodes@);
    let n: usize = nodes.len();
    let mut i: usize = parent + 1;
    while i < n
        invariant
            n == nodes@.len(),
            i <= n,
            doc == entries(nodes@),
            step_into(doc, parent, step@) == step_from(doc, parent, step@, i as int),
        decreases nodes@.len() - i,
    {
        let node = &nodes[i];
        assert(doc[i as int] == node@);
        if node.parent == parent && same_step(&node.step, step) {
            return Some(i);
        }
        i = i + 1;
    }
    None
}

/// Where the steps of a path from number `k` on lead from place `at`, if they
/// lead anywhere.
pub open spec fn walk_from(doc: Seq<JsonEntry>, at: usize, path: Seq<JsonPlace>, k: int) -> Option<
    usize,
>
    decreases path.len() - k,
{
    if 0 <= k < path.len() {
        match step_into(doc, at, path[k]) {
            Some(next) => walk_from(doc, next, path, k + 1),
            None => None,
        }
    } else {
        Some(at)
    }
}

/// Follows a path from a place.
pub fn walk(nodes: &Vec<JsonNode>, from: usize, path: &Vec<JsonStep>) -> (r: Option<usize>)
    requires
        from < nodes@.len(),
    ensures
        r == walk_from(entries(nodes@), from, path@.map_values(|s: JsonStep| s@), 0),
        r matches Some(n) ==> n < nodes@.len(),
{
    let ghost doc = entries(nodes@);
    let ghost way = path@.map_values(|s: JsonStep| s@);
    let mut at: usize = from;
    let mut k: usize = 0;
    while k < path.len()
        invariant
            k <= path@.len(),
            at < nodes@.len(),
            doc == entries(nodes@),
            way == path@.map_values(|s: JsonStep| s@),
            walk_from(doc, from, way, 0) == walk_from(doc, at, way, k as int),
        decreases path@.len() - k,
    {
        assert(way[k as int] == path@[k as int]@);
        match take_step(nodes, at, &path[k]) {
            Some(next) => {
                at = next;
            },
            None => {
                return None;
            },
        }
        k = k + 1;
    }
    Some(at)
}

} // verus!

//! JSON replies: lists of objects, of which a few values are wanted each.

use vstd::prelude::*;

use crate::jsondoc::{
    entries, serde_json_nodes, serde_json_parse, step_into, take_step, walk, walk_from, JsonEntry,
    JsonNode, JsonPlace, JsonStep, JsonValue, JsonWorth,
};
use crate::number::{zero, Number};
use crate::text::{chars_of, read_signed, signed_number};

verus! {

// -- rows --

/// A value without any others inside it.
#[derive(Debug)]
pub enum JsonScalar {
    Bool(bool),
    /// A number, as it is written.
    Number(String),
    Text(String),
    /// No value, or one of another kind.
    Nothing,
}

/// What a value without any others inside it says.
pub enum JsonItem {
    Bool(bool),
    Number(Seq<char>),
    Text(Seq<char>),
    Nothing,
}

impl View for JsonScalar {
    type V = JsonItem;

    open spec fn view(&self) -> JsonItem {
        match self {
            JsonScalar::Bool(b) => JsonItem::Bool(*b),
            JsonScalar::Number(n) => JsonItem::Number(n@),
            JsonScalar::Text(s) => JsonItem::Text(s@),
            JsonScalar::Nothing => JsonItem::Nothing,
        }
    }
}

/// What a value comes to where one without any others inside it is wanted.
pub open spec fn plain_worth(w: JsonWorth) -> JsonItem {
    match w {
        JsonWorth::Flag(b) => JsonItem::Bool(b),
        JsonWorth::Digits(n) => JsonItem::Number(n),
        JsonWorth::Text(s) => JsonItem::Text(s),
        _ => JsonItem::Nothing,
    }
}

/// What is at the end of a path from place `at`.
pub open spec fn item_along(doc: Seq<JsonEntry>, at: usize, path: Seq<JsonPlace>) -> JsonItem {
    match walk_from(doc, at, path, 0) {
        Some(n) => plain_worth(doc[n as int].value),
        None => JsonItem::Nothing,
    }
}

/// Reads what is at the end of a path from a place.
fn scalar_along(nodes: &Vec<JsonNode>, at: usize, path: &Vec<JsonStep>) -> (r: JsonScalar)
    requires
        at < nodes@.len(),
    ensures
        r@ == item_along(entries(nodes@), at, path@.map_values(|s: JsonStep| s@)),
{
    let Some(n) = walk(nodes, at, path) else {
        return JsonScalar::Nothing;
    };
    assert(entries(nodes@)[n as int] == nodes@[n as int]@);
    match &nodes[n].value {
        JsonValue::Flag(b) => JsonScalar::Bool(*b),
        JsonValue::Digits(n) => JsonScalar::Number(n.as_str().to_string()),
        JsonValue::Text(s) => JsonScalar::Text(s.as_str().to_string()),
        _ => JsonScalar::Nothing,
    }
}

/// The ways that a list of them takes.
pub open spec fn places(paths: Seq<Vec<JsonStep>>) -> Seq<Seq<JsonPlace>> {
    paths.map_values(|p: Vec<JsonStep>| p@.map_values(|s: JsonStep| s@))
}

/// What a row of values says.
pub open spec fn row_said(row: Seq<JsonScalar>) -> Seq<JsonItem> {
    row.map_values(|v: JsonScalar| v@)
}

/// What rows of values say.
pub open spec fn rows_said(rows: Seq<Vec<JsonScalar>>) -> Seq<Seq<JsonItem>> {
    rows.map_values(|r: Vec<JsonScalar>| row_said(r@))
}

/// What came of reading a reply.
pub enum JsonReading {
    NotJson,
    NotList,
    Rows(Seq<Seq<JsonItem>>),
}

/// What is at the ends of the paths from place `at`.
pub open spec fn row_at(doc: Seq<JsonEntry>, at: usize, paths: Seq<Seq<JsonPlace>>) -> Seq<
    JsonItem,
> {
    paths.map_values(|p: Seq<JsonPlace>| item_along(doc, at, p))
}

/// Reads what is at the ends of the paths from a place.
fn read_row(nodes: &Vec<JsonNode>, at: usize, paths: &Vec<Vec<JsonStep>>) -> (r: Vec<JsonScalar>)
    requires
        at < nodes@.len(),
    ensures
        row_said(r@) == row_at(entries(nodes@), at, places(paths@)),
{
    let ghost all = row_at(entries(nodes@), at, places(paths@));
    let mut row: Vec<JsonScalar> = Vec::new();
    let mut k: usize = 0;
    assert(row_said(row@) == all.take(0));
    while k < paths.len()
        invariant
            at < nodes@.len(),
            k <= paths@.len(),
            all == row_at(entries(nodes@), at, places(paths@)),
            row_said(row@) == all.take(k as int),
        decreases paths@.len() - k,
    {
        let v = scalar_along(nodes, at, &paths[k]);
        assert(places(paths@)[k as int] == paths@[k as int]@.map_values(|s: JsonStep| s@));
        assert(v@ == all[k as int]);
        let ghost before = row@;
        row.push(v);
        assert(row_said(row@) == row_said(before).push(v@));
        k = k + 1;
        assert(all.take(k as int) == all.take(k - 1).push(all[k - 1]));
    }
    assert(all.take(k as int) == all);
    row
}

/// The rows of the entries from number `i` on of the list that a document is.
pub open spec fn rows_from(doc: Seq<JsonEntry>, paths: Seq<Seq<JsonPlace>>, i: int) -> Seq<
    Seq<JsonItem>,
>
    decreases doc.len() - i,
{
    if 0 <= i < doc.len() {
        match step_into(doc, 0, JsonPlace::Index(i as usize)) {
            Some(at) => seq![row_at(doc, at, paths)] + rows_from(doc, paths, i + 1),
            None => seq![],
        }
    } else {
        seq![]
    }
}

/// What a document comes to: for every entry of the list that it is, what is
/// at the ends of the paths.
pub open spec fn rows_in(doc: Option<Seq<JsonEntry>>, paths: Seq<Seq<JsonPlace>>) -> JsonReading {
    match doc {
        None => JsonReading::NotJson,
        Some(doc) => if doc.len() > 0 && doc[0].value is List {
            JsonReading::Rows(rows_from(doc, paths, 0))
        } else {
            JsonReading::NotList
        },
    }
}

/// Reads, for every entry of the list that a document is, what is at the ends
/// of the paths.
pub fn rows_of(nodes: &Vec<JsonNode>, paths: &Vec<Vec<JsonStep>>) -> (r: Option<
    Vec<Vec<JsonScalar>>,
>)
    ensures
        rows_in(Some(entries(nodes@)), places(paths@)) == match r {
            Some(rows) => JsonReading::Rows(rows_said(rows@)),
            None => JsonReading::NotList,
        },
{
    let ghost doc = entries(nodes@);
    let ghost ways = places(paths@);
    if nodes.len() == 0 {
        return None;
    }
    assert(doc[0] == nodes@[0]@);
    let is_list = match &nodes[0].value {
        JsonValue::List => true,
        _ => false,
    };
    if !is_list {
        return None;
    }
    let mut rows: Vec<Vec<JsonScalar>> = Vec::new();
    let mut i: usize = 0;
    let mut more: bool = true;
    assert(rows_said(rows@) + rows_from(doc, ways, 0) == rows_from(doc, ways, 0));
    while more && i < nodes.len()
        invariant
            i <= nodes@.len(),
            doc == entries(nodes@),
            ways == places(paths@),
            rows_from(doc, ways, 0) == if more {
                rows_said(rows@) + rows_from(doc, ways, i as int)
            } else {
                rows_said(rows@)
            },
        decreases
                nodes@.len() - i,
                if more {
                    1int
                } else {
                    0int
                },
    {
        match take_step(nodes, 0, &JsonStep::Index(i)) {
            Some(at) => {
                let row = read_row(nodes, at, paths);
                let ghost before = rows@;
                let ghost said = row_said(row@);
                rows.push(row);
                assert(rows_said(rows@) == rows_said(before).push(said));
                i = i + 1;
                assert(rows_said(before) + (seq![said] + rows_from(doc, ways, i as int))
                    == rows_said(rows@) + rows_from(doc, ways, i as int));
            },
            None => {
                more = false;
                assert(rows_said(rows@) + Seq::<Seq<JsonItem>>::empty() == rows_said(rows@));
            },
        }
    }
    assert(rows_from(doc, ways, 0) == rows_said(rows@));
    Some(rows)
}

/// Reads a reply: for every entry of the list that it is, what is at the ends
/// of the paths.
pub fn json_rows(bytes: &[u8], paths: &Vec<Vec<JsonStep>>) -> (r: Result<
    Option<Vec<Vec<JsonScalar>>>,
    serde_json::Error,
>)
    ensures
        rows_in(serde_json_nodes(bytes@), places(paths@)) == match r {
            Err(_) => JsonReading::NotJson,
            Ok(None) => JsonReading::NotList,
            Ok(Some(rows)) => JsonReading::Rows(rows_said(rows@)),
        },
{
    match serde_json_parse(bytes) {
        Ok(nodes) => Ok(rows_of(&nodes, paths)),
        Err(e) => Err(e),
    }
}

// -- what values come to --

/// The value in a place of a row; nothing past its end.
pub open spec fn item_at(row: Seq<JsonItem>, i: int) -> JsonItem {
    if 0 <= i < row.len() {
        row[i]
    } else {
        JsonItem::Nothing
    }
}

/// A number, zero where there is none.
pub open spec fn number_in<N: Number>(row: Seq<JsonItem>, i: int) -> N {
    match item_at(row, i) {
        JsonItem::Number(n) => match N::spec_read(n) {
            Some(v) => v,
            None => zero(),
        },
        _ => zero(),
    }
}

/// Reads a number.
pub fn read_number<N: Number>(row: &Vec<JsonScalar>, i: usize) -> (r: N)
    ensures
        r == number_in::<N>(row_said(row@), i as int),
{
    if i < row.len() {
        match &row[i] {
            JsonScalar::Number(n) => match N::read(n.as_str()) {
                Some(v) => v,
                None => zero(),
            },
            _ => zero(),
        }
    } else {
        zero()
    }
}

/// A whole number, if there is one.
pub open spec fn whole_in(row: Seq<JsonItem>, i: int) -> Option<i64> {
    match item_at(row, i) {
        JsonItem::Number(n) => signed_number(n),
        _ => None,
    }
}

/// Reads a whole number.
pub fn read_whole_number(row: &Vec<JsonScalar>, i: usize) -> (r: Option<i64>)
    ensures
        r == whole_in(row_said(row@), i as int),
{
    if i < row.len() {
        match &row[i] {
            JsonScalar::Number(n) => {
                let text = chars_of(n.as_str());
                read_signed(text.as_slice())
            },
            _ => None,
        }
    } else {
        None
    }
}

/// Is it said to be so?
pub open spec fn truth_in(row: Seq<JsonItem>, i: int) -> bool {
    item_at(row, i) == JsonItem::Bool(true)
}

/// Reads whether it is so.
pub fn read_truth(row: &Vec<JsonScalar>, i: usize) -> (r: bool)
    ensures
        r == truth_in(row_said(row@), i as int),
{
    if i < row.len() {
        match &row[i] {
            JsonScalar::Bool(b) => *b,
            _ => false,
        }
    } else {
        false
    }
}

/// A text, if there is one.
pub open spec fn text_in(row: Seq<JsonItem>, i: int) -> Option<Seq<char>> {
    match item_at(row, i) {
        JsonItem::Text(s) => Some(s),
        _ => None,
    }
}

/// Reads a text.
pub fn read_text(row: &Vec<JsonScalar>, i: usize) -> (r: Option<&str>)
    ensures
        match r {
            Some(s) => text_in(row_said(row@), i as int) == Some(s@),
            None => text_in(row_said(row@), i as int) is None,
        },
{
    if i < row.len() {
        match &row[i] {
            JsonScalar::Text(s) => Some(s.as_str()),
            _ => None,
        }
    } else {
        None
    }
}

/// The way to what stands under a key.
pub open spec fn under(key: Seq<char>) -> Seq<JsonPlace> {
    seq![JsonPlace::Key(key)]
}

/// The way to what stands under a key.
pub fn key(name: &str) -> (r: Vec<JsonStep>)
    ensures
        r@.map_values(|s: JsonStep| s@) == under(name@),
{
    let mut path: Vec<JsonStep> = Vec::new();
    path.push(JsonStep::Key(name.to_string()));
    assert(path@.map_values(|s: JsonStep| s@) == under(name@));
    path
}

/// The way to an entry of the list under a key.
pub open spec fn entry_under(key: Seq<char>, i: usize) -> Seq<JsonPlace> {
    seq![JsonPlace::Key(key), JsonPlace::Index(i)]
}

/// The way to an entry of the list under a key.
pub fn key_entry(name: &str, i: usize) -> (r: Vec<JsonStep>)
    ensures
        r@.map_values(|s: JsonStep| s@) == entry_under(name@, i),
{
    let mut path: Vec<JsonStep> = Vec::new();
    path.push(JsonStep::Key(name.to_string()));
    path.push(JsonStep::Index(i));
    assert(path@.map_values(|s: JsonStep| s@) == entry_under(name@, i));
    path
}

/// The way to what stands under one key and then another.
pub open spec fn under_both(key: Seq<char>, inner: Seq<char>) -> Seq<JsonPlace> {
    seq![JsonPlace::Key(key), JsonPlace::Key(inner)]
}

/// The way to what stands under one key and then another.
pub fn key_key(name: &str, inner: &str) -> (r: Vec<JsonStep>)
    ensures
        r@.map_values(|s: JsonStep| s@) == under_both(name@, inner@),
{
    let mut path: Vec<JsonStep> = Vec::new();
    path.push(JsonStep::Key(name.to_string()));
    path.push(JsonStep::Key(inner.to_string()));
    assert(path@.map_values(|s: JsonStep| s@) == under_both(name@, inner@));
    path
}

} // verus!

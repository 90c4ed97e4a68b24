//! XML documents, laid out flat: every node in document order, each with the
//! place of its parent.
//!
//! Names are matched without regard to namespace, since pet files in the wild
//! disagree about whether theirs is http or https.

use vstd::prelude::*;

use crate::text::{chars_of, copied, is_word, trim, trimmed};

verus! {

/// The errors of `roxmltree`.
#[verifier::external_type_specification]
#[verifier::external_body]
pub struct ExXmlError(roxmltree::Error);

/// An attribute of an element.
#[derive(Debug)]
pub struct XmlAttribute {
    /// The name, without its namespace.
    pub name: String,
    pub value: String,
}

/// A node of a document.
#[derive(Debug)]
pub struct XmlNode {
    /// The place of the node it is in. The document itself is in none.
    pub parent: Option<usize>,
    /// Is it an element?
    pub element: bool,
    /// The name of an element, without its namespace.
    pub name: String,
    /// The text an element starts with, if it starts with any.
    pub text: Option<String>,
    pub attributes: Vec<XmlAttribute>,
}

/// What a node holds.
pub struct XmlItem {
    pub parent: Option<usize>,
    pub element: bool,
    pub name: Seq<char>,
    pub text: Option<Seq<char>>,
    pub attributes: Seq<(Seq<char>, Seq<char>)>,
}

impl View for XmlNode {
    type V = XmlItem;

    open spec fn view(&self) -> XmlItem {
        XmlItem {
            parent: self.parent,
            element: self.element,
            name: self.name@,
            text: match self.text {
                Some(t) => Some(t@),
                None => None,
            },
            attributes: self.attributes@.map_values(|a: XmlAttribute| (a.name@, a.value@)),
        }
    }
}

/// What the nodes hold.
pub open spec fn items(nodes: Seq<XmlNode>) -> Seq<XmlItem> {
    nodes.map_values(|n: XmlNode| n@)
}

/// The nodes `roxmltree::Document::parse` makes of a text, in document order,
/// if it is a document.
pub uninterp spec fn roxmltree_nodes(text: Seq<char>) -> Option<Seq<XmlItem>>;

/// Calls `roxmltree::Document::parse` and lays the document out flat. What
/// comes of it is a function of the text alone. Nothing more is said of the
/// nodes, nor of the error.
#[verifier::external_body]
pub(crate) fn roxmltree_parse(text: &str) -> (r: Result<Vec<XmlNode>, roxmltree::Error>)
    ensures
        match r {
            Ok(nodes) => roxmltree_nodes(text@) == Some(items(nodes@)),
            Err(_) => roxmltree_nodes(text@) is None,
        },
{
    let doc = roxmltree::Document::parse(text)?;
    Ok(doc.descendants().map(|n| XmlNode {
        parent: n.parent().map(|p| p.id().get_usize()),
        element: n.is_element(),
        name: n.tag_name().name().to_string(),
        text: n.text().map(|t| t.to_string()),
        attributes: n.attributes().map(|a| XmlAttribute {
            name: a.name().to_string(),
            value: a.value().to_string(),
        }).collect(),
    }).collect())
}

// -- finding one's way --

/// Is the node in place `i` an element called `name` inside that in place
/// `parent`?
pub open spec fn is_child(doc: Seq<XmlItem>, parent: usize, name: Seq<char>, i: int) -> bool {
    doc[i].parent == Some(parent) && doc[i].element && doc[i].name == name
}

/// The places from `i` on of the elements called `name` inside that in place
/// `parent`.
pub open spec fn children_from(doc: Seq<XmlItem>, parent: usize, name: Seq<char>, i: int) -> Seq<
    usize,
>
    decreases doc.len() - i,
{
    if 0 <= i < doc.len() {
        if is_child(doc, parent, name, i) {
            seq![i as usize] + children_from(doc, parent, name, i + 1)
        } else {
            children_from(doc, parent, name, i + 1)
        }
    } else {
        seq![]
    }
}

/// The places of the elements called `name` inside that in place `parent`.
pub open spec fn children_of(doc: Seq<XmlItem>, parent: usize, name: Seq<char>) -> Seq<usize> {
    children_from(doc, parent, name, 0)
}

/// The place of the first element called `name` inside that in place `parent`.
pub open spec fn child_of(doc: Seq<XmlItem>, parent: usize, name: Seq<char>) -> Option<usize> {
    let all = children_of(doc, parent, name);
    if all.len() > 0 {
        Some(all[0])
    } else {
        None
    }
}

proof fn lemma_children_are_nodes(doc: Seq<XmlItem>, parent: usize, name: Seq<char>, i: int)
    requires
        0 <= i,
        doc.len() <= usize::MAX,
    ensures
        forall|k: int|
            0 <= k < children_from(doc, parent, name, i).len() ==> (#[trigger] children_from(
                doc,
                parent,
                name,
                i,
            )[k]) < doc.len(),
    decreases doc.len() - i,
{
    if i < doc.len() {
        lemma_children_are_nodes(doc, parent, name, i + 1);
        let rest = children_from(doc, parent, name, i + 1);
        let all = children_from(doc, parent, name, i);
        assert forall|k: int| 0 <= k < all.len() implies (#[trigger] all[k]) < doc.len() by {
            if is_child(doc, parent, name, i) {
                if k > 0 {
                    assert(all[k] == rest[k - 1]);
                }
            } else {
                assert(all == rest);
            }
        }
    }
}

/// The elements called `name` inside that in place `parent`.
pub fn children(nodes: &Vec<XmlNode>, parent: usize, name: &str) -> (r: Vec<usize>)
    ensures
        r@ == children_of(items(nodes@), parent, name@),
        forall|k: int| 0 <= k < r@.len() ==> (#[trigger] r@[k]) < nodes@.len(),
{
    let ghost doc = items(nodes@);
    let mut out: Vec<usize> = Vec::new();
    let mut i: usize = 0;
    let n: usize = nodes.len();
    while i < n
        invariant
            i <= n,
            n == nodes@.len(),
            doc == items(nodes@),
            children_from(doc, parent, name@, 0) == out@ + children_from(
                doc,
                parent,
                name@,
                i as int,
            ),
        decreases n - i,
    {
        let node = &nodes[i];
        assert(doc[i as int] == node@);
        let inside = match node.parent {
            Some(p) => p == parent,
            None => false,
        };
        if inside && node.element {
            let here = chars_of(node.name.as_str());
            if is_word(here.as_slice(), name) {
                let ghost before = out@;
                out.push(i);
                assert(before + (seq![i] + children_from(doc, parent, name@, i + 1)) == out@
                    + children_from(doc, parent, name@, i + 1));
            }
        }
        i = i + 1;
    }
    assert(out@ + children_from(doc, parent, name@, i as int) == out@);
    proof {
        lemma_children_are_nodes(doc, parent, name@, 0);
    }
    out
}

/// The first element called `name` inside that in place `parent`.
pub fn child(nodes: &Vec<XmlNode>, parent: usize, name: &str) -> (r: Option<usize>)
    ensures
        r == child_of(items(nodes@), parent, name@),
        r matches Some(c) ==> c < nodes@.len(),
{
    let all = children(nodes, parent, name);
    if all.len() > 0 {
        Some(all[0])
    } else {
        None
    }
}

/// The first element from place `i` on that is in the document itself.
pub open spec fn root_from(doc: Seq<XmlItem>, i: int) -> Option<usize>
    decreases doc.len() - i,
{
    if 0 <= i < doc.len() {
        if doc[i].element && doc[i].parent == Some(0usize) {
            Some(i as usize)
        } else {
            root_from(doc, i + 1)
        }
    } else {
        None
    }
}

/// The element that holds all the others.
pub fn root_element(nodes: &Vec<XmlNode>) -> (r: Option<usize>)
    ensures
        r == root_from(items(nodes@), 0),
        r matches Some(c) ==> c < nodes@.len(),
{
    let ghost doc = items(nodes@);
    let mut i: usize = 0;
    while i < nodes.len()
        invariant
            i <= nodes@.len(),
            doc == items(nodes@),
            root_from(doc, 0) == root_from(doc, i as int),
        decreases nodes@.len() - i,
    {
        assert(doc[i as int] == nodes@[i as int]@);
        let top = match nodes[i].parent {
            Some(p) => p == 0,
            None => false,
        };
        if nodes[i].element && top {
            return Some(i);
        }
        i = i + 1;
    }
    None
}

// -- what elements say --

/// The text of the first element called `name` inside that in place `n`,
/// trimmed.
pub open spec fn text_in(doc: Seq<XmlItem>, n: usize, name: Seq<char>) -> Option<Seq<char>> {
    match child_of(doc, n, name) {
        Some(c) => match doc[c as int].text {
            Some(t) => Some(trimmed(t)),
            None => None,
        },
        None => None,
    }
}

/// The value of the first attribute from place `i` on that has this name.
pub open spec fn attribute_from(a: Seq<(Seq<char>, Seq<char>)>, name: Seq<char>, i: int) -> Option<
    Seq<char>,
>
    decreases a.len() - i,
{
    if 0 <= i < a.len() {
        if a[i].0 == name {
            Some(a[i].1)
        } else {
            attribute_from(a, name, i + 1)
        }
    } else {
        None
    }
}

/// An attribute of the element in place `n`.
pub open spec fn attribute_of(doc: Seq<XmlItem>, n: usize, name: Seq<char>) -> Option<Seq<char>> {
    attribute_from(doc[n as int].attributes, name, 0)
}

/// The text of a node, if it has any.
pub fn text(nodes: &Vec<XmlNode>, n: usize) -> (r: Option<&str>)
    requires
        n < nodes@.len(),
    ensures
        match r {
            Some(t) => items(nodes@)[n as int].text == Some(t@),
            None => items(nodes@)[n as int].text is None,
        },
{
    assert(items(nodes@)[n as int] == nodes@[n as int]@);
    match &nodes[n].text {
        Some(t) => Some(t.as_str()),
        None => None,
    }
}

/// The text without the white space around it.
pub fn trim_text(s: &str) -> (r: Vec<char>)
    ensures
        r@ == trimmed(s@),
{
    let all = chars_of(s);
    copied(trim(all.as_slice()))
}

/// The text of the first element called `name` inside another, trimmed.
pub fn text_of(nodes: &Vec<XmlNode>, n: usize, name: &str) -> (r: Option<Vec<char>>)
    ensures
        match r {
            Some(t) => text_in(items(nodes@), n, name@) == Some(t@),
            None => text_in(items(nodes@), n, name@) is None,
        },
{
    match child(nodes, n, name) {
        Some(c) => match text(nodes, c) {
            Some(t) => Some(trim_text(t)),
            None => None,
        },
        None => None,
    }
}

/// An attribute of an element.
pub fn attribute<'a>(nodes: &'a Vec<XmlNode>, n: usize, name: &str) -> (r: Option<&'a str>)
    requires
        n < nodes@.len(),
    ensures
        match r {
            Some(v) => attribute_of(items(nodes@), n, name@) == Some(v@),
            None => attribute_of(items(nodes@), n, name@) is None,
        },
{
    let list = &nodes[n].attributes;
    let ghost a = items(nodes@)[n as int].attributes;
    assert(items(nodes@)[n as int] == nodes@[n as int]@);
    let mut i: usize = 0;
    while i < list.len()
        invariant
            i <= list@.len(),
            a == list@.map_values(|a: XmlAttribute| (a.name@, a.value@)),
            a == items(nodes@)[n as int].attributes,
            attribute_from(a, name@, 0) == attribute_from(a, name@, i as int),
        decreases list@.len() - i,
    {
        let here = chars_of(list[i].name.as_str());
        assert(a[i as int] == (list@[i as int].name@, list@[i as int].value@));
        if is_word(here.as_slice(), name) {
            return Some(list[i].value.as_str());
        }
        i = i + 1;
    }
    None
}

} // verus!

//! Rendering of a small tree of data (null, booleans, integers, doubles,
//! strings, lists and maps, each node with optional attributes) as compact or
//! indented text.

use vstd::prelude::*;

pub mod document;
pub mod formatter;
pub mod number;
pub mod sink;

verus! {

/// An ordered list of nodes.
pub type ListType = Vec<Node>;

/// What a node holds.
#[derive(Debug, PartialEq)]
pub enum Value {
    String(String),
    Int64(i64),
    Uint64(u64),
    /// A double, as the decimal or exponential text that stands for it.
    Double(String),
    Bool(bool),
    /// Nodes in an order that rendering keeps.
    List(ListType),
    Mapping(MapType),
    Null,
}

/// A value, with attributes where it has any.
///
/// Attributes are a node of their own. Only one whose value is a map is ever
/// rendered.
#[derive(Debug, PartialEq)]
pub struct Node {
    pub attributes: Option<Box<Node>>,
    pub value: Value,
}

/// A map from string keys to nodes that keeps its entries in the order in
/// which their keys were first inserted.
#[derive(Debug, PartialEq)]
pub struct MapType {
    pub entries: Vec<(String, Node)>,
}

/// What a value holds, as a mathematical value: a string is its characters,
/// a list its elements in order, a map its entries in order.
pub enum ValueView {
    String(Seq<char>),
    Int64(i64),
    Uint64(u64),
    Double(Seq<char>),
    Bool(bool),
    List(Seq<NodeView>),
    Mapping(Seq<(Seq<char>, NodeView)>),
    Null,
}

/// A node as a mathematical value.
pub struct NodeView {
    pub attributes: Option<Box<NodeView>>,
    pub value: ValueView,
}

/// The view of a node.
pub open spec fn node_view(node: Node) -> NodeView
    decreases node, 0nat,
{
    NodeView {
        attributes: match node.attributes {
            Some(holder) => Some(Box::new(node_view(*holder))),
            None => None,
        },
        value: value_view(node.value),
    }
}

/// The view of a value.
pub open spec fn value_view(value: Value) -> ValueView
    decreases value, 0nat,
{
    match value {
        Value::String(text) => ValueView::String(text@),
        Value::Int64(i) => ValueView::Int64(i),
        Value::Uint64(u) => ValueView::Uint64(u),
        Value::Double(text) => ValueView::Double(text@),
        Value::Bool(b) => ValueView::Bool(b),
        Value::List(items) => ValueView::List(items_view(items@)),
        Value::Mapping(map) => ValueView::Mapping(entries_view(map.entries@)),
        Value::Null => ValueView::Null,
    }
}

/// The views of the elements of a list, in order.
pub open spec fn items_view(items: Seq<Node>) -> Seq<NodeView>
    decreases items, 0nat,
{
    Seq::new(
        items.len(),
        |i: int|
            if 0 <= i < items.len() {
                node_view(items[i])
            } else {
                arbitrary()
            },
    )
}

/// The views of the entries of a map, in order.
pub open spec fn entries_view(entries: Seq<(String, Node)>) -> Seq<(Seq<char>, NodeView)>
    decreases entries, 0nat,
{
    Seq::new(
        entries.len(),
        |i: int|
            if 0 <= i < entries.len() {
                (entries[i].0@, node_view(entries[i].1))
            } else {
                arbitrary()
            },
    )
}

/// The view of a node is made of the views of its parts.
pub proof fn lemma_node_view(node: Node)
    ensures
        node@.value == node.value@,
        node.attributes matches Some(holder) ==> node@.attributes == Some(Box::new(holder@)),
        node.attributes is None ==> node@.attributes is None,
{
}

impl View for Node {
    type V = NodeView;

    open spec fn view(&self) -> NodeView {
        node_view(*self)
    }
}

impl View for Value {
    type V = ValueView;

    open spec fn view(&self) -> ValueView {
        value_view(*self)
    }
}

impl View for MapType {
    type V = Seq<(Seq<char>, NodeView)>;

    open spec fn view(&self) -> Seq<(Seq<char>, NodeView)> {
        entries_view(self.entries@)
    }
}

/// No key occurs twice among `entries`.
pub open spec fn distinct_keys(entries: Seq<(Seq<char>, NodeView)>) -> bool {
    forall|i: int, j: int| 0 <= i < j < entries.len() ==> entries[i].0 != entries[j].0
}

impl MapType {
    /// No key occurs twice.
    pub open spec fn well_formed(self) -> bool {
        distinct_keys(self@)
    }

    /// Whether some entry has the key `key`.
    pub open spec fn has_key(self, key: Seq<char>) -> bool {
        exists|i: int| 0 <= i < self@.len() && self@[i].0 == key
    }

    /// The index of the entry with the key `key`, where there is one.
    pub open spec fn index_of(self, key: Seq<char>) -> int {
        choose|i: int| 0 <= i < self@.len() && self@[i].0 == key
    }

    /// The empty map.
    pub fn new() -> (map: Self)
        ensures
            map@.len() == 0,
            map.well_formed(),
    {
        MapType { entries: Vec::new() }
    }

    /// The number of entries.
    pub fn len(&self) -> (n: usize)
        ensures
            n == self@.len(),
    {
        self.entries.len()
    }

    /// The position of `key` among the entries.
    fn position(&self, key: &String) -> (found: Option<usize>)
        ensures
            match found {
                Some(i) => i < self@.len() && self@[i as int].0 == key@,
                None => !self.has_key(key@),
            },
    {
        let mut i: usize = 0;
        while i < self.entries.len()
            invariant
                i <= self@.len(),
                forall|j: int| 0 <= j < i ==> self@[j].0 != key@,
            decreases self@.len() - i,
        {
            if self.entries[i].0 == *key {
                return Some(i);
            }
            i += 1;
        }
        None
    }

    /// Gives `key` the value `value`. A key that the map has keeps its place
    /// and its old value is returned; a new key goes to the end.
    pub fn insert(&mut self, key: String, value: Node) -> (previous: Option<Node>)
        requires
            old(self).well_formed(),
        ensures
            final(self).well_formed(),
            old(self).has_key(key@) ==> {
                let i = old(self).index_of(key@);
                &&& previous matches Some(node) && node@ == old(self)@[i].1
                &&& final(self)@ == old(self)@.update(i, (key@, value@))
            },
            !old(self).has_key(key@) ==> {
                &&& previous is None
                &&& final(self)@ == old(self)@.push((key@, value@))
            },
    {
        match self.position(&key) {
            Some(i) => {
                let entry = self.entries.remove(i);
                self.entries.insert(i, (entry.0, value));
                assert(self@ =~= old(self)@.update(i as int, (key@, value@)));
                Some(entry.1)
            },
            None => {
                self.entries.push((key, value));
                assert(self@ =~= old(self)@.push((key@, value@)));
                None
            },
        }
    }
}

/// A copy of `node` with the same view.
fn copy_node(node: &Node) -> (copy: Node)
    ensures
        copy@ == node@,
    decreases node, 1nat,
{
    let attributes = match &node.attributes {
        Some(holder) => Some(Box::new(copy_node(holder))),
        None => None,
    };
    Node { attributes, value: copy_value(&node.value) }
}

/// A copy of `value` with the same view.
fn copy_value(value: &Value) -> (copy: Value)
    ensures
        copy@ == value@,
    decreases value, 0nat,
{
    match value {
        Value::String(text) => Value::String(text.clone()),
        Value::Int64(i) => Value::Int64(*i),
        Value::Uint64(u) => Value::Uint64(*u),
        Value::Double(text) => Value::Double(text.clone()),
        Value::Bool(b) => Value::Bool(*b),
        Value::List(items) => Value::List(copy_items(items)),
        Value::Mapping(map) => Value::Mapping(copy_map(map)),
        Value::Null => Value::Null,
    }
}

/// Copies of `items` with the same views, in the same order.
fn copy_items(items: &Vec<Node>) -> (copies: Vec<Node>)
    ensures
        items_view(copies@) == items_view(items@),
    decreases items@, 0nat,
{
    let mut copies: Vec<Node> = Vec::new();
    let mut i: usize = 0;
    while i < items.len()
        invariant
            i <= items.len(),
            copies@.len() == i,
            forall|j: int| 0 <= j < i ==> (#[trigger] copies@[j])@ == items@[j]@,
        decreases items.len() - i,
    {
        copies.push(copy_node(&items[i]));
        i += 1;
    }
    assert(items_view(copies@) =~= items_view(items@));
    copies
}

/// A copy of `map` with the same view.
fn copy_map(map: &MapType) -> (copy: MapType)
    ensures
        copy@ == map@,
        copy.well_formed() == map.well_formed(),
    decreases map.entries@, 0nat,
{
    let mut copies: Vec<(String, Node)> = Vec::new();
    let mut i: usize = 0;
    while i < map.entries.len()
        invariant
            i <= map.entries.len(),
            copies@.len() == i,
            forall|j: int|
                0 <= j < i ==> (#[trigger] copies@[j]).0@ == map.entries@[j].0@ && copies@[j].1@
                    == map.entries@[j].1@,
        decreases map.entries.len() - i,
    {
        copies.push((map.entries[i].0.clone(), copy_node(&map.entries[i].1)));
        i += 1;
    }
    assert(entries_view(copies@) =~= entries_view(map.entries@));
    MapType { entries: copies }
}

impl Clone for Node {
    fn clone(&self) -> (copy: Self)
        ensures
            copy@ == self@,
    {
        copy_node(self)
    }
}

impl Clone for Value {
    fn clone(&self) -> (copy: Self)
        ensures
            copy@ == self@,
    {
        copy_value(self)
    }
}

impl Clone for MapType {
    fn clone(&self) -> (copy: Self)
        ensures
            copy@ == self@,
            copy.well_formed() == self.well_formed(),
    {
        copy_map(self)
    }
}

} // verus!

//! Pretty documents.

use vstd::prelude::*;
use vstd::utf8::valid_utf8;
use crate::document::compact::{compact_value, lemma_quoted_utf8, quoted};
use crate::document::lemma_ascii_valid;
use crate::formatter::pretty::{line_end, line_start, repeat, PrettyFormatter};
use crate::formatter::to::{
    attributes_run,
    entries_run,
    entry_run,
    item_run,
    items_run,
    key_run,
    node_run,
    value_run,
};
use crate::formatter::{Event, Formatter};
use crate::number::is_ascii_bytes;
use crate::{entries_view, items_view, lemma_node_view, Node, NodeView, Value, ValueView};

verus! {

/// How deep the lists, maps and attribute blocks of a node nest: none for a
/// scalar without an attribute block.
pub open spec fn nesting(node: NodeView) -> nat
    decreases node, 0nat,
{
    let attributes = attributes_nesting(node.attributes);
    let value = value_nesting(node.value);
    if attributes >= value {
        attributes
    } else {
        value
    }
}

/// The nesting of the attribute block of a node.
pub open spec fn attributes_nesting(attributes: Option<Box<NodeView>>) -> nat
    decreases attributes, 0nat,
{
    match attributes {
        Some(holder) => match holder.value {
            ValueView::Mapping(entries) => 1 + entries_nesting(entries, 0),
            _ => 0,
        },
        None => 0,
    }
}

/// The nesting of a value.
pub open spec fn value_nesting(value: ValueView) -> nat
    decreases value, 0nat,
{
    match value {
        ValueView::List(items) => 1 + items_nesting(items, 0),
        ValueView::Mapping(entries) => 1 + entries_nesting(entries, 0),
        _ => 0,
    }
}

/// The deepest nesting among the elements from index `from` on.
pub open spec fn items_nesting(items: Seq<NodeView>, from: int) -> nat
    decreases items, items.len() - from,
{
    if 0 <= from < items.len() {
        let one = nesting(items[from]);
        let rest = items_nesting(items, from + 1);
        if one >= rest {
            one
        } else {
            rest
        }
    } else {
        0
    }
}

/// The deepest nesting among the values of the entries from index `from` on.
pub open spec fn entries_nesting(entries: Seq<(Seq<char>, NodeView)>, from: int) -> nat
    decreases entries, entries.len() - from,
{
    if 0 <= from < entries.len() {
        let one = nesting(entries[from].1);
        let rest = entries_nesting(entries, from + 1);
        if one >= rest {
            one
        } else {
            rest
        }
    } else {
        0
    }
}

/// The pretty text of a node that stands at depth `depth`, that is, inside
/// `depth` lists, maps and attribute blocks.
pub open spec fn pretty_node(node: NodeView, depth: nat, unit: Seq<u8>) -> Seq<u8>
    decreases node, 0nat,
{
    pretty_attributes(node.attributes, depth, unit) + pretty_value(node.value, depth, unit)
}

/// The pretty text of the attributes of a node at depth `depth`. The closing
/// bracket of the block is followed by a space.
pub open spec fn pretty_attributes(
    attributes: Option<Box<NodeView>>,
    depth: nat,
    unit: Seq<u8>,
) -> Seq<u8>
    decreases attributes, 0nat,
{
    match attributes {
        Some(holder) => match holder.value {
            ValueView::Mapping(entries) => seq!['<' as u8] + pretty_entries(
                entries,
                0,
                depth + 1,
                unit,
            ) + line_end(unit, depth, entries.len() == 0) + seq!['>' as u8, ' ' as u8],
            _ => Seq::empty(),
        },
        None => Seq::empty(),
    }
}

/// The pretty text of a value at depth `depth`. Scalars and strings are as in
/// a compact document; the elements of a list and the entries of a map stand
/// one level deeper than the list or map itself.
pub open spec fn pretty_value(value: ValueView, depth: nat, unit: Seq<u8>) -> Seq<u8>
    decreases value, 0nat,
{
    match value {
        ValueView::List(items) => seq!['[' as u8] + pretty_items(items, 0, depth + 1, unit)
            + line_end(unit, depth, items.len() == 0) + seq![']' as u8],
        ValueView::Mapping(entries) => seq!['{' as u8] + pretty_entries(entries, 0, depth + 1, unit)
            + line_end(unit, depth, entries.len() == 0) + seq!['}' as u8],
        _ => compact_value(value),
    }
}

/// The lines of the elements from index `from` on, at depth `depth`.
pub open spec fn pretty_items(items: Seq<NodeView>, from: int, depth: nat, unit: Seq<u8>) -> Seq<u8>
    decreases items, items.len() - from,
{
    if 0 <= from < items.len() {
        line_start(unit, depth, from == 0) + pretty_node(items[from], depth, unit) + pretty_items(
            items,
            from + 1,
            depth,
            unit,
        )
    } else {
        Seq::empty()
    }
}

/// One entry at depth `depth`: the key as a string, a padded equals sign,
/// the value.
pub open spec fn pretty_entry(key: Seq<char>, child: NodeView, depth: nat, unit: Seq<u8>) -> Seq<u8>
    decreases child, 1nat,
{
    quoted(key) + seq![' ' as u8, '=' as u8, ' ' as u8] + pretty_node(child, depth, unit)
}

/// The lines of the entries from index `from` on, at depth `depth`.
pub open spec fn pretty_entries(
    entries: Seq<(Seq<char>, NodeView)>,
    from: int,
    depth: nat,
    unit: Seq<u8>,
) -> Seq<u8>
    decreases entries, entries.len() - from,
{
    if 0 <= from < entries.len() {
        line_start(unit, depth, from == 0) + pretty_entry(
            entries[from].0,
            entries[from].1,
            depth,
            unit,
        ) + pretty_entries(entries, from + 1, depth, unit)
    } else {
        Seq::empty()
    }
}

/// Whether a pretty formatter has seen an element or entry in its innermost
/// level after a node: a list or a map leaves behind whether it had any, an
/// attribute block before a scalar too, and a bare scalar changes nothing.
pub open spec fn flag_after(node: NodeView, flag: bool) -> bool {
    match node.value {
        ValueView::List(items) => items.len() > 0,
        ValueView::Mapping(entries) => entries.len() > 0,
        _ => match node.attributes {
            Some(holder) => match holder.value {
                ValueView::Mapping(entries) => entries.len() > 0,
                _ => flag,
            },
            None => flag,
        },
    }
}

/// The state that a pretty formatter is in at depth `depth`.
pub open spec fn at_depth<'a>(
    f: PrettyFormatter<'a>,
    depth: int,
    has_value: bool,
) -> PrettyFormatter<'a> {
    PrettyFormatter { current_indent: depth as usize, has_value, indent: f.indent }
}

/// A pretty formatter takes a node if and only if its nesting counter can
/// count the node's nesting. The text it then emits is the node's pretty text
/// at the depth the counter shows, and the counter is back where it was.
pub proof fn lemma_pretty_node<'a>(f: PrettyFormatter<'a>, node: NodeView)
    ensures
        node_run(f, node).accepted <==> f.current_indent + nesting(node) <= usize::MAX,
        node_run(f, node).accepted ==> {
            &&& node_run(f, node).text == pretty_node(node, f.current_indent as nat, f.indent@)
            &&& node_run(f, node).state == at_depth(
                f,
                f.current_indent as int,
                flag_after(node, f.has_value),
            )
        },
    decreases node, 0nat,
{
    lemma_pretty_attributes(f, node.attributes);
    let attributes = attributes_run(f, node.attributes);
    if attributes.accepted {
        lemma_pretty_value(attributes.state, node.value);
    }
}

/// A pretty formatter on the attributes of a node.
pub proof fn lemma_pretty_attributes<'a>(f: PrettyFormatter<'a>, attributes: Option<Box<NodeView>>)
    ensures
        attributes_run(f, attributes).accepted <==> f.current_indent + attributes_nesting(
            attributes,
        ) <= usize::MAX,
        attributes_run(f, attributes).accepted ==> {
            &&& attributes_run(f, attributes).text == pretty_attributes(
                attributes,
                f.current_indent as nat,
                f.indent@,
            )
            &&& attributes_run(f, attributes).state == at_depth(
                f,
                f.current_indent as int,
                flag_after(NodeView { attributes, value: ValueView::Null }, f.has_value),
            )
        },
    decreases attributes, 0nat,
{
    match attributes {
        Some(holder) => match holder.value {
            ValueView::Mapping(entries) => {
                if f.current_indent < usize::MAX {
                    lemma_pretty_entries(f.entered(), entries, 0);
                }
            },
            _ => {},
        },
        None => {},
    }
}

/// A pretty formatter on a value.
pub proof fn lemma_pretty_value<'a>(f: PrettyFormatter<'a>, value: ValueView)
    ensures
        value_run(f, value).accepted <==> f.current_indent + value_nesting(value) <= usize::MAX,
        value_run(f, value).accepted ==> {
            &&& value_run(f, value).text == pretty_value(value, f.current_indent as nat, f.indent@)
            &&& value_run(f, value).state == at_depth(
                f,
                f.current_indent as int,
                flag_after(NodeView { attributes: None, value }, f.has_value),
            )
        },
    decreases value, 0nat,
{
    match value {
        ValueView::List(items) => {
            if f.current_indent < usize::MAX {
                lemma_pretty_items(f.entered(), items, 0);
            }
        },
        ValueView::Mapping(entries) => {
            if f.current_indent < usize::MAX {
                lemma_pretty_entries(f.entered(), entries, 0);
            }
        },
        _ => {},
    }
}

/// A pretty formatter on the elements of a list, inside the list.
pub proof fn lemma_pretty_items<'a>(f: PrettyFormatter<'a>, items: Seq<NodeView>, from: int)
    requires
        0 <= from <= items.len(),
        f.current_indent > 0,
    ensures
        items_run(f, items, from).accepted <==> f.current_indent + items_nesting(items, from)
            <= usize::MAX,
        items_run(f, items, from).accepted ==> {
            &&& items_run(f, items, from).text == pretty_items(
                items,
                from,
                f.current_indent as nat,
                f.indent@,
            )
            &&& items_run(f, items, from).state == at_depth(
                f,
                f.current_indent as int,
                from < items.len() || f.has_value,
            )
        },
    decreases items, items.len() - from,
{
    if from < items.len() {
        let one = item_run(f, items[from], from == 0);
        lemma_pretty_node(f, items[from]);
        if one.accepted {
            assert(one.text =~= line_start(
                f.indent@,
                f.current_indent as nat,
                from == 0,
            ) + pretty_node(items[from], f.current_indent as nat, f.indent@));
            lemma_pretty_items(one.state, items, from + 1);
        }
    }
}

/// A pretty formatter on the entries of a map or an attribute block, inside
/// the map or block.
pub proof fn lemma_pretty_entries<'a>(
    f: PrettyFormatter<'a>,
    entries: Seq<(Seq<char>, NodeView)>,
    from: int,
)
    requires
        0 <= from <= entries.len(),
        f.current_indent > 0,
    ensures
        entries_run(f, entries, from).accepted <==> f.current_indent + entries_nesting(
            entries,
            from,
        ) <= usize::MAX,
        entries_run(f, entries, from).accepted ==> {
            &&& entries_run(f, entries, from).text == pretty_entries(
                entries,
                from,
                f.current_indent as nat,
                f.indent@,
            )
            &&& entries_run(f, entries, from).state == at_depth(
                f,
                f.current_indent as int,
                from < entries.len() || f.has_value,
            )
        },
    decreases entries, entries.len() - from,
{
    if from < entries.len() {
        let key = entries[from].0;
        let child = entries[from].1;
        let one = entry_run(f, key, child, from == 0);
        let opened = key_run(f, key, from == 0);
        assert(opened.text =~= line_start(
            f.indent@,
            f.current_indent as nat,
            from == 0,
        ) + quoted(key) + seq![' ' as u8, '=' as u8, ' ' as u8]);
        assert(opened.state == f);
        lemma_pretty_node(f, child);
        if one.accepted {
            assert(one.text =~= line_start(
                f.indent@,
                f.current_indent as nat,
                from == 0,
            ) + pretty_entry(key, child, f.current_indent as nat, f.indent@));
            lemma_pretty_entries(one.state, entries, from + 1);
        }
    }
}

/// An empty list, map or attribute block is its two delimiters and nothing
/// else: no line break is put between them. (The closing delimiter of an
/// attribute block is its bracket and a space.)
pub proof fn lemma_empty_blocks<'a>(f: PrettyFormatter<'a>, node: NodeView)
    requires
        f.current_indent < usize::MAX,
    ensures
        node.value matches ValueView::List(items) && items.len() == 0 ==> value_run(
            f,
            node.value,
        ).text == seq!['[' as u8, ']' as u8],
        node.value matches ValueView::Mapping(entries) && entries.len() == 0 ==> value_run(
            f,
            node.value,
        ).text == seq!['{' as u8, '}' as u8],
        node.attributes matches Some(holder) && holder.value matches ValueView::Mapping(entries)
            && entries.len() == 0 ==> attributes_run(f, node.attributes).text == seq![
            '<' as u8,
            '>' as u8,
            ' ' as u8,
        ],
{
}

/// The nesting counter counts the blocks that are open: opening a list, a map
/// or an attribute block adds one to it, closing one takes one off again, and
/// nothing else changes it.
pub proof fn lemma_counter<'a>(f: PrettyFormatter<'a>, event: Event)
    requires
        f.accepts(event),
    ensures
        f.next(event).current_indent == f.current_indent + match event {
            Event::BeginList | Event::BeginMap | Event::BeginAttributes => 1int,
            Event::EndList | Event::EndMap | Event::EndAttributes => -1int,
            _ => 0int,
        },
        f.next(event).indent == f.indent,
{
}

/// Inside a block, the line of an element starts with a line break (after a
/// separator, unless the element is the first) and one unit of indentation
/// for each block that is open; the element follows at that depth.
pub proof fn lemma_element_line<'a>(f: PrettyFormatter<'a>, item: NodeView, first: bool)
    requires
        f.current_indent > 0,
        item_run(f, item, first).accepted,
    ensures
        item_run(f, item, first).text == line_start(f.indent@, f.current_indent as nat, first)
            + pretty_node(item, f.current_indent as nat, f.indent@),
        item_run(f, item, first).state.current_indent == f.current_indent,
{
    lemma_pretty_node(f, item);
}

/// Inside a block, the line of an entry starts as the line of an element
/// does; the key, a padded equals sign and the value follow at that depth.
pub proof fn lemma_entry_line<'a>(
    f: PrettyFormatter<'a>,
    key: Seq<char>,
    child: NodeView,
    first: bool,
)
    requires
        f.current_indent > 0,
        entry_run(f, key, child, first).accepted,
    ensures
        entry_run(f, key, child, first).text == line_start(
            f.indent@,
            f.current_indent as nat,
            first,
        ) + pretty_entry(key, child, f.current_indent as nat, f.indent@),
        entry_run(f, key, child, first).state.current_indent == f.current_indent,
{
    let opened = key_run(f, key, first);
    assert(opened.text =~= line_start(f.indent@, f.current_indent as nat, first) + quoted(key)
        + seq![' ' as u8, '=' as u8, ' ' as u8]);
    assert(opened.state == f);
    lemma_pretty_node(f, child);
}

/// Copies of a unit that is valid UTF-8 are valid UTF-8.
pub proof fn lemma_repeat_utf8(unit: Seq<u8>, count: nat)
    requires
        valid_utf8(unit),
    ensures
        valid_utf8(repeat(unit, count)),
    decreases count,
{
    if count > 0 {
        lemma_repeat_utf8(unit, (count - 1) as nat);
        vstd::utf8::valid_utf8_concat(repeat(unit, (count - 1) as nat), unit);
    }
}

/// The start and the end of a line are valid UTF-8 where the unit of
/// indentation is.
pub proof fn lemma_line_utf8(unit: Seq<u8>, depth: nat, flag: bool)
    requires
        valid_utf8(unit),
    ensures
        valid_utf8(line_start(unit, depth, flag)),
        valid_utf8(line_end(unit, depth, flag)),
{
    lemma_repeat_utf8(unit, depth);
    let plain = seq!['\n' as u8];
    let after = seq![';' as u8, '\n' as u8];
    lemma_ascii_valid(plain);
    lemma_ascii_valid(after);
    vstd::utf8::valid_utf8_concat(plain, repeat(unit, depth));
    vstd::utf8::valid_utf8_concat(after, repeat(unit, depth));
}

/// A pretty document is valid UTF-8 where its unit of indentation is.
pub proof fn lemma_pretty_utf8(node: NodeView, depth: nat, unit: Seq<u8>)
    requires
        valid_utf8(unit),
    ensures
        valid_utf8(pretty_node(node, depth, unit)),
    decreases node, 0nat,
{
    lemma_attributes_utf8(node.attributes, depth, unit);
    lemma_value_utf8(node.value, depth, unit);
    vstd::utf8::valid_utf8_concat(
        pretty_attributes(node.attributes, depth, unit),
        pretty_value(node.value, depth, unit),
    );
}

/// What a pretty formatter emits for a node that it takes can be read as a
/// string where its unit of indentation can.
pub proof fn lemma_pretty_run_utf8<'a>(f: PrettyFormatter<'a>, node: NodeView)
    requires
        node_run(f, node).accepted,
        valid_utf8(f.indent@),
    ensures
        valid_utf8(node_run(f, node).text),
{
    lemma_pretty_node(f, node);
    lemma_pretty_utf8(node, f.current_indent as nat, f.indent@);
}

/// A block is valid UTF-8 where its lines are.
proof fn lemma_block_utf8(opening: Seq<u8>, lines: Seq<u8>, end: Seq<u8>, closing: Seq<u8>)
    requires
        is_ascii_bytes(opening),
        valid_utf8(lines),
        valid_utf8(end),
        is_ascii_bytes(closing),
    ensures
        valid_utf8(opening + lines + end + closing),
{
    lemma_ascii_valid(opening);
    lemma_ascii_valid(closing);
    vstd::utf8::valid_utf8_concat(opening, lines);
    vstd::utf8::valid_utf8_concat(opening + lines, end);
    vstd::utf8::valid_utf8_concat(opening + lines + end, closing);
}

/// The pretty text of an attribute block is valid UTF-8.
proof fn lemma_attributes_utf8(attributes: Option<Box<NodeView>>, depth: nat, unit: Seq<u8>)
    requires
        valid_utf8(unit),
    ensures
        valid_utf8(pretty_attributes(attributes, depth, unit)),
    decreases attributes, 0nat,
{
    match attributes {
        Some(holder) => match holder.value {
            ValueView::Mapping(entries) => {
                lemma_entries_utf8(entries, 0, depth + 1, unit);
                lemma_line_utf8(unit, depth, entries.len() == 0);
                lemma_block_utf8(
                    seq!['<' as u8],
                    pretty_entries(entries, 0, depth + 1, unit),
                    line_end(unit, depth, entries.len() == 0),
                    seq!['>' as u8, ' ' as u8],
                );
            },
            _ => {
                lemma_ascii_valid(Seq::empty());
            },
        },
        None => {
            lemma_ascii_valid(Seq::empty());
        },
    }
}

/// The pretty text of a value is valid UTF-8.
proof fn lemma_value_utf8(value: ValueView, depth: nat, unit: Seq<u8>)
    requires
        valid_utf8(unit),
    ensures
        valid_utf8(pretty_value(value, depth, unit)),
    decreases value, 0nat,
{
    match value {
        ValueView::List(items) => {
            lemma_items_utf8(items, 0, depth + 1, unit);
            lemma_line_utf8(unit, depth, items.len() == 0);
            lemma_block_utf8(
                seq!['[' as u8],
                pretty_items(items, 0, depth + 1, unit),
                line_end(unit, depth, items.len() == 0),
                seq![']' as u8],
            );
        },
        ValueView::Mapping(entries) => {
            lemma_entries_utf8(entries, 0, depth + 1, unit);
            lemma_line_utf8(unit, depth, entries.len() == 0);
            lemma_block_utf8(
                seq!['{' as u8],
                pretty_entries(entries, 0, depth + 1, unit),
                line_end(unit, depth, entries.len() == 0),
                seq!['}' as u8],
            );
        },
        _ => {
            crate::document::compact::lemma_value_utf8(value);
        },
    }
}

/// The lines of the elements of a list are valid UTF-8.
proof fn lemma_items_utf8(items: Seq<NodeView>, from: int, depth: nat, unit: Seq<u8>)
    requires
        0 <= from <= items.len(),
        valid_utf8(unit),
    ensures
        valid_utf8(pretty_items(items, from, depth, unit)),
    decreases items, items.len() - from,
{
    if from < items.len() {
        let head = line_start(unit, depth, from == 0);
        let one = pretty_node(items[from], depth, unit);
        let rest = pretty_items(items, from + 1, depth, unit);
        lemma_line_utf8(unit, depth, from == 0);
        lemma_pretty_utf8(items[from], depth, unit);
        lemma_items_utf8(items, from + 1, depth, unit);
        vstd::utf8::valid_utf8_concat(head, one);
        vstd::utf8::valid_utf8_concat(head + one, rest);
    } else {
        lemma_ascii_valid(Seq::empty());
    }
}

/// The lines of the entries of a map are valid UTF-8.
proof fn lemma_entries_utf8(
    entries: Seq<(Seq<char>, NodeView)>,
    from: int,
    depth: nat,
    unit: Seq<u8>,
)
    requires
        0 <= from <= entries.len(),
        valid_utf8(unit),
    ensures
        valid_utf8(pretty_entries(entries, from, depth, unit)),
    decreases entries, entries.len() - from,
{
    if from < entries.len() {
        let head = line_start(unit, depth, from == 0);
        let key = quoted(entries[from].0);
        let sign = seq![' ' as u8, '=' as u8, ' ' as u8];
        let child = pretty_node(entries[from].1, depth, unit);
        let rest = pretty_entries(entries, from + 1, depth, unit);
        lemma_line_utf8(unit, depth, from == 0);
        lemma_quoted_utf8(entries[from].0);
        lemma_ascii_valid(sign);
        lemma_pretty_utf8(entries[from].1, depth, unit);
        lemma_entries_utf8(entries, from + 1, depth, unit);
        assert(pretty_entry(entries[from].0, entries[from].1, depth, unit) == key + sign + child);
        vstd::utf8::valid_utf8_concat(key, sign);
        vstd::utf8::valid_utf8_concat(key + sign, child);
        vstd::utf8::valid_utf8_concat(head, key + sign + child);
        vstd::utf8::valid_utf8_concat(head + (key + sign + child), rest);
    } else {
        lemma_ascii_valid(Seq::empty());
    }
}

/// The elements from index `from` on nest within `room` exactly when each of
/// them does.
proof fn lemma_items_nesting(items: Seq<NodeView>, from: int, room: nat)
    requires
        0 <= from <= items.len(),
    ensures
        items_nesting(items, from) <= room <==> forall|j: int|
            from <= j < items.len() ==> nesting(#[trigger] items[j]) <= room,
    decreases items.len() - from,
{
    if from < items.len() {
        lemma_items_nesting(items, from + 1, room);
    }
}

/// The entries from index `from` on nest within `room` exactly when the
/// value of each of them does.
proof fn lemma_entries_nesting(
    entries: Seq<(Seq<char>, NodeView)>,
    from: int,
    room: nat,
)
    requires
        0 <= from <= entries.len(),
    ensures
        entries_nesting(entries, from) <= room <==> forall|j: int|
            from <= j < entries.len() ==> nesting((#[trigger] entries[j]).1) <= room,
    decreases entries.len() - from,
{
    if from < entries.len() {
        lemma_entries_nesting(entries, from + 1, room);
    }
}

/// Whether the blocks of `node` nest no deeper than `room`.
pub fn nests_within(node: &Node, room: usize) -> (fits: bool)
    ensures
        fits == (nesting(node@) <= room),
    decreases node, 1nat,
{
    proof {
        lemma_node_view(*node);
        if let Some(holder) = &node.attributes {
            lemma_node_view(**holder);
        }
    }
    let attributes = match &node.attributes {
        Some(holder) => match &holder.value {
            Value::Mapping(map) => room > 0 && entries_within(&map.entries, room - 1),
            _ => true,
        },
        None => true,
    };
    attributes && value_within(&node.value, room)
}

/// Whether the blocks of `value` nest no deeper than `room`.
fn value_within(value: &Value, room: usize) -> (fits: bool)
    ensures
        fits == (value_nesting(value@) <= room),
    decreases value, 0nat,
{
    match value {
        Value::List(items) => room > 0 && items_within(items, room - 1),
        Value::Mapping(map) => room > 0 && entries_within(&map.entries, room - 1),
        _ => true,
    }
}

/// Whether the elements of `items` nest no deeper than `room`.
fn items_within(items: &Vec<Node>, room: usize) -> (fits: bool)
    ensures
        fits == (items_nesting(items_view(items@), 0) <= room),
    decreases items@, 0nat,
{
    let mut i: usize = 0;
    while i < items.len()
        invariant
            i <= items.len(),
            forall|j: int| 0 <= j < i ==> nesting(#[trigger] items_view(items@)[j]) <= room,
        decreases items.len() - i,
    {
        assert(items_view(items@)[i as int] == items@[i as int]@);
        if !nests_within(&items[i], room) {
            proof {
                lemma_items_nesting(items_view(items@), 0, room as nat);
            }
            return false;
        }
        i += 1;
    }
    proof {
        lemma_items_nesting(items_view(items@), 0, room as nat);
    }
    true
}

/// Whether the values of `entries` nest no deeper than `room`.
fn entries_within(entries: &Vec<(String, Node)>, room: usize) -> (fits: bool)
    ensures
        fits == (entries_nesting(entries_view(entries@), 0) <= room),
    decreases entries@, 0nat,
{
    let mut i: usize = 0;
    while i < entries.len()
        invariant
            i <= entries.len(),
            forall|j: int|
                0 <= j < i ==> nesting((#[trigger] entries_view(entries@)[j]).1) <= room,
        decreases entries.len() - i,
    {
        assert(entries_view(entries@)[i as int].1 == entries@[i as int].1@);
        if !nests_within(&entries[i].1, room) {
            proof {
                lemma_entries_nesting(entries_view(entries@), 0, room as nat);
            }
            return false;
        }
        i += 1;
    }
    proof {
        lemma_entries_nesting(entries_view(entries@), 0, room as nat);
    }
    true
}

impl<'a> PrettyFormatter<'a> {
    /// Whether this formatter can take `node`: whether its nesting counter
    /// can count the node's nesting.
    pub fn takes(&self, node: &Node) -> (ok: bool)
        ensures
            ok == node_run(*self, node@).accepted,
    {
        proof {
            lemma_pretty_node(*self, node@);
        }
        nests_within(node, usize::MAX - self.current_indent)
    }
}

} // verus!

//! Compact documents.

use vstd::prelude::*;
use vstd::utf8::{encode_utf8, valid_utf8};
use crate::document::{count, has_block, lemma_ascii_valid, lemma_count_concat};
use crate::formatter::compact::TextFormatter;
use crate::formatter::to::{
    attributes_run,
    entries_run,
    entry_run,
    item_run,
    items_run,
    key_run,
    node_run,
    value_run,
};
use crate::number::{
    is_signed_token,
    is_unsigned_token,
    lemma_integer_ascii,
    lemma_signed_text,
    lemma_unsigned_text,
    signed_text,
    unsigned_text,
};
use crate::{NodeView, ValueView};

verus! {

/// A string between its quotes. Nothing in it is escaped.
pub open spec fn quoted(text: Seq<char>) -> Seq<u8> {
    seq!['"' as u8] + encode_utf8(text) + seq!['"' as u8]
}

/// What stands before an element or entry: a separator, unless it is the
/// first.
pub open spec fn separator(first: bool) -> Seq<u8> {
    if first {
        Seq::empty()
    } else {
        seq![';' as u8]
    }
}

/// The compact text of a node: its attributes between angle brackets where
/// they are a map, then its value.
pub open spec fn compact_node(node: NodeView) -> Seq<u8>
    decreases node, 0nat,
{
    compact_attributes(node.attributes) + compact_value(node.value)
}

/// The compact text of the attributes of a node.
pub open spec fn compact_attributes(attributes: Option<Box<NodeView>>) -> Seq<u8>
    decreases attributes, 0nat,
{
    match attributes {
        Some(holder) => match holder.value {
            ValueView::Mapping(entries) => seq!['<' as u8] + compact_entries(entries, 0) + seq![
                '>' as u8,
            ],
            _ => Seq::empty(),
        },
        None => Seq::empty(),
    }
}

/// The compact text of a value.
pub open spec fn compact_value(value: ValueView) -> Seq<u8>
    decreases value, 0nat,
{
    match value {
        ValueView::Null => seq!['#' as u8],
        ValueView::Bool(b) => if b {
            seq!['%' as u8, 't' as u8, 'r' as u8, 'u' as u8, 'e' as u8]
        } else {
            seq!['%' as u8, 'f' as u8, 'a' as u8, 'l' as u8, 's' as u8, 'e' as u8]
        },
        ValueView::Int64(i) => signed_text(i as int),
        ValueView::Uint64(u) => unsigned_text(u as nat),
        ValueView::Double(text) => encode_utf8(text),
        ValueView::String(text) => quoted(text),
        ValueView::List(items) => seq!['[' as u8] + compact_items(items, 0) + seq![']' as u8],
        ValueView::Mapping(entries) => seq!['{' as u8] + compact_entries(entries, 0) + seq![
            '}' as u8,
        ],
    }
}

/// The compact text of the elements of a list from index `from` on: each
/// but the first after a separator.
pub open spec fn compact_items(items: Seq<NodeView>, from: int) -> Seq<u8>
    decreases items, items.len() - from,
{
    if 0 <= from < items.len() {
        separator(from == 0) + compact_node(items[from]) + compact_items(items, from + 1)
    } else {
        Seq::empty()
    }
}

/// The compact text of one entry: the key as a string, an equals sign, the
/// value.
pub open spec fn compact_entry(key: Seq<char>, child: NodeView) -> Seq<u8>
    decreases child, 1nat,
{
    quoted(key) + seq!['=' as u8] + compact_node(child)
}

/// The compact text of the entries of a map or an attribute block from index
/// `from` on: each but the first after a separator.
pub open spec fn compact_entries(entries: Seq<(Seq<char>, NodeView)>, from: int) -> Seq<u8>
    decreases entries, entries.len() - from,
{
    if 0 <= from < entries.len() {
        separator(from == 0) + compact_entry(entries[from].0, entries[from].1) + compact_entries(
            entries,
            from + 1,
        )
    } else {
        Seq::empty()
    }
}

/// The compact formatter takes every node, and the text it emits for one is
/// the node's compact text.
pub proof fn lemma_compact_node(f: TextFormatter, node: NodeView)
    ensures
        node_run(f, node).accepted,
        node_run(f, node).text == compact_node(node),
    decreases node, 0nat,
{
    lemma_compact_attributes(f, node.attributes);
    lemma_compact_value(f, node.value);
}

/// The compact formatter on the attributes of a node.
pub proof fn lemma_compact_attributes(f: TextFormatter, attributes: Option<Box<NodeView>>)
    ensures
        attributes_run(f, attributes).accepted,
        attributes_run(f, attributes).text == compact_attributes(attributes),
    decreases attributes, 0nat,
{
    match attributes {
        Some(holder) => match holder.value {
            ValueView::Mapping(entries) => {
                lemma_compact_entries(f, entries, 0);
            },
            _ => {},
        },
        None => {},
    }
}

/// The compact formatter on a value.
pub proof fn lemma_compact_value(f: TextFormatter, value: ValueView)
    ensures
        value_run(f, value).accepted,
        value_run(f, value).text == compact_value(value),
    decreases value, 0nat,
{
    match value {
        ValueView::List(items) => {
            lemma_compact_items(f, items, 0);
        },
        ValueView::Mapping(entries) => {
            lemma_compact_entries(f, entries, 0);
        },
        _ => {},
    }
}

/// The compact formatter on the elements of a list.
pub proof fn lemma_compact_items(f: TextFormatter, items: Seq<NodeView>, from: int)
    requires
        0 <= from <= items.len(),
    ensures
        items_run(f, items, from).accepted,
        items_run(f, items, from).text == compact_items(items, from),
    decreases items, items.len() - from,
{
    if from < items.len() {
        let one = item_run(f, items[from], from == 0);
        lemma_compact_node(f, items[from]);
        assert(one.text =~= separator(from == 0) + compact_node(items[from]));
        lemma_compact_items(f, items, from + 1);
    }
}

/// The compact formatter on the entries of a map or an attribute block.
pub proof fn lemma_compact_entries(f: TextFormatter, entries: Seq<(Seq<char>, NodeView)>, from: int)
    requires
        0 <= from <= entries.len(),
    ensures
        entries_run(f, entries, from).accepted,
        entries_run(f, entries, from).text == compact_entries(entries, from),
    decreases entries, entries.len() - from,
{
    if from < entries.len() {
        let key = entries[from].0;
        let child = entries[from].1;
        let one = entry_run(f, key, child, from == 0);
        lemma_compact_node(f, child);
        assert(key_run(f, key, from == 0).text =~= separator(from == 0) + quoted(key) + seq![
            '=' as u8,
        ]);
        assert(one.text =~= separator(from == 0) + compact_entry(key, child));
        lemma_compact_entries(f, entries, from + 1);
    }
}

/// In a compact document a scalar is one token: the null mark, one of the
/// two boolean words, a signed integer without a suffix, an unsigned integer
/// with its suffix, the text of a double as it was given, or a string between
/// its quotes.
pub proof fn lemma_scalar_token(f: TextFormatter, value: ValueView)
    ensures
        value is Null ==> value_run(f, value).text == seq!['#' as u8],
        value == ValueView::Bool(true) ==> value_run(f, value).text == seq![
            '%' as u8,
            't' as u8,
            'r' as u8,
            'u' as u8,
            'e' as u8,
        ],
        value == ValueView::Bool(false) ==> value_run(f, value).text == seq![
            '%' as u8,
            'f' as u8,
            'a' as u8,
            'l' as u8,
            's' as u8,
            'e' as u8,
        ],
        value is Int64 ==> is_signed_token(value_run(f, value).text) && value_run(
            f,
            value,
        ).text.last() != 'u' as u8,
        value is Uint64 ==> is_unsigned_token(value_run(f, value).text),
        value matches ValueView::Double(text) ==> value_run(f, value).text == encode_utf8(text),
        value matches ValueView::String(text) ==> value_run(f, value).text == quoted(text),
{
    lemma_compact_value(f, value);
    match value {
        ValueView::Int64(i) => {
            lemma_signed_text(i as int);
        },
        ValueView::Uint64(u) => {
            lemma_unsigned_text(u as nat);
        },
        _ => {},
    }
}

/// How many separators stand between `n` elements or entries.
pub open spec fn separators(n: nat) -> nat {
    if n == 0 {
        0
    } else {
        (n - 1) as nat
    }
}

/// How often `byte` occurs in the texts of the elements from index `from`
/// on.
pub open spec fn count_in_items(items: Seq<NodeView>, from: int, byte: u8) -> nat
    decreases items.len() - from,
{
    if 0 <= from < items.len() {
        count(compact_node(items[from]), byte) + count_in_items(items, from + 1, byte)
    } else {
        0
    }
}

/// How often `byte` occurs in the keys and the values of the entries from
/// index `from` on.
pub open spec fn count_in_entries(entries: Seq<(Seq<char>, NodeView)>, from: int, byte: u8) -> nat
    decreases entries.len() - from,
{
    if 0 <= from < entries.len() {
        count(quoted(entries[from].0), byte) + count(compact_node(entries[from].1), byte)
            + count_in_entries(entries, from + 1, byte)
    } else {
        0
    }
}

/// The elements from index `from` on bring one separator each, but for the
/// first element of the list.
proof fn lemma_count_items(items: Seq<NodeView>, from: int)
    requires
        0 <= from <= items.len(),
    ensures
        count(compact_items(items, from), ';' as u8) == count_in_items(items, from, ';' as u8)
            + if from == 0 {
            separators(items.len())
        } else {
            (items.len() - from) as nat
        },
    decreases items.len() - from,
{
    if from < items.len() {
        lemma_count_items(items, from + 1);
        let head = separator(from == 0);
        let one = compact_node(items[from]);
        let rest = compact_items(items, from + 1);
        lemma_count_concat(head, one, ';' as u8);
        lemma_count_concat(head + one, rest, ';' as u8);
        assert(count(head, ';' as u8) == if from == 0 {
            0nat
        } else {
            1nat
        }) by {
            reveal_with_fuel(count, 2);
            assert(head.drop_last().len() == 0 || from == 0);
        }
    }
}

/// The compact text of a list of `n` elements holds exactly `n - 1`
/// separators (none for an empty list) besides the semicolons that the texts
/// of its elements hold themselves. So a list whose elements hold no
/// semicolon holds `n - 1` of them.
pub proof fn lemma_list_separators(f: TextFormatter, items: Seq<NodeView>)
    ensures
        count(value_run(f, ValueView::List(items)).text, ';' as u8) == separators(items.len())
            + count_in_items(items, 0, ';' as u8),
{
    lemma_compact_value(f, ValueView::List(items));
    lemma_count_items(items, 0);
    let opening = seq!['[' as u8];
    let closing = seq![']' as u8];
    let inner = compact_items(items, 0);
    lemma_count_concat(opening, inner, ';' as u8);
    lemma_count_concat(opening + inner, closing, ';' as u8);
    reveal_with_fuel(count, 2);
    assert(opening.drop_last().len() == 0);
    assert(closing.drop_last().len() == 0);
}

/// The entries from index `from` on bring one equals sign each, and one
/// separator each but for the first entry of the map or block.
proof fn lemma_count_entries(entries: Seq<(Seq<char>, NodeView)>, from: int, byte: u8)
    requires
        0 <= from <= entries.len(),
        byte == ';' as u8 || byte == '=' as u8,
    ensures
        count(compact_entries(entries, from), byte) == count_in_entries(entries, from, byte)
            + if byte == '=' as u8 {
            (entries.len() - from) as nat
        } else if from == 0 {
            separators(entries.len())
        } else {
            (entries.len() - from) as nat
        },
    decreases entries.len() - from,
{
    if from < entries.len() {
        lemma_count_entries(entries, from + 1, byte);
        let head = separator(from == 0);
        let key = quoted(entries[from].0);
        let sign = seq!['=' as u8];
        let child = compact_node(entries[from].1);
        let rest = compact_entries(entries, from + 1);
        assert(compact_entry(entries[from].0, entries[from].1) =~= key + sign + child);
        assert(compact_entries(entries, from) =~= head + key + sign + child + rest);
        lemma_count_concat(head, key, byte);
        lemma_count_concat(head + key, sign, byte);
        lemma_count_concat(head + key + sign, child, byte);
        lemma_count_concat(head + key + sign + child, rest, byte);
        reveal_with_fuel(count, 2);
        assert(head.drop_last().len() == 0 || from == 0);
        assert(sign.drop_last().len() == 0);
    }
}

/// The compact text of a map of `n` entries holds exactly `n` equals signs
/// and `n - 1` separators (none for an empty map) besides those that the
/// texts of its keys and values hold themselves. So a map whose keys and
/// values hold neither holds `n` equals signs and `n - 1` semicolons.
pub proof fn lemma_map_separators(f: TextFormatter, entries: Seq<(Seq<char>, NodeView)>)
    ensures
        count(value_run(f, ValueView::Mapping(entries)).text, '=' as u8) == entries.len()
            + count_in_entries(entries, 0, '=' as u8),
        count(value_run(f, ValueView::Mapping(entries)).text, ';' as u8) == separators(
            entries.len(),
        ) + count_in_entries(entries, 0, ';' as u8),
{
    lemma_compact_value(f, ValueView::Mapping(entries));
    lemma_count_entries(entries, 0, '=' as u8);
    lemma_count_entries(entries, 0, ';' as u8);
    let opening = seq!['{' as u8];
    let closing = seq!['}' as u8];
    let inner = compact_entries(entries, 0);
    lemma_count_concat(opening, inner, '=' as u8);
    lemma_count_concat(opening + inner, closing, '=' as u8);
    lemma_count_concat(opening, inner, ';' as u8);
    lemma_count_concat(opening + inner, closing, ';' as u8);
    reveal_with_fuel(count, 2);
    assert(opening.drop_last().len() == 0);
    assert(closing.drop_last().len() == 0);
}

/// The entries from any index on end with the last entry.
proof fn lemma_entries_end(entries: Seq<(Seq<char>, NodeView)>, from: int)
    requires
        0 <= from < entries.len(),
    ensures
        compact_entry(entries.last().0, entries.last().1).is_suffix_of(
            compact_entries(entries, from),
        ),
    decreases entries.len() - from,
{
    let last = compact_entry(entries.last().0, entries.last().1);
    let whole = compact_entries(entries, from);
    if from + 1 < entries.len() {
        lemma_entries_end(entries, from + 1);
        let rest = compact_entries(entries, from + 1);
        assert(whole.subrange(whole.len() - last.len(), whole.len() as int) =~= rest.subrange(
            rest.len() - last.len(),
            rest.len() as int,
        ));
    } else {
        assert(compact_entries(entries, from + 1) =~= Seq::<u8>::empty());
        assert(whole.subrange(whole.len() - last.len(), whole.len() as int) =~= last);
    }
}

/// In the compact text of a map that has entries, the closing brace follows
/// the last entry at once: no separator stands after the last entry.
pub proof fn lemma_map_end(f: TextFormatter, entries: Seq<(Seq<char>, NodeView)>)
    requires
        entries.len() > 0,
    ensures
        (compact_entry(entries.last().0, entries.last().1) + seq![
            '}' as u8,
        ]).is_suffix_of(value_run(f, ValueView::Mapping(entries)).text),
{
    lemma_compact_value(f, ValueView::Mapping(entries));
    lemma_entries_end(entries, 0);
    let last = compact_entry(entries.last().0, entries.last().1);
    let inner = compact_entries(entries, 0);
    let whole = seq!['{' as u8] + inner + seq!['}' as u8];
    let tail = last + seq!['}' as u8];
    assert(inner.subrange(inner.len() - last.len(), inner.len() as int) == last);
    assert(whole.subrange(whole.len() - tail.len(), whole.len() as int) =~= tail);
}

/// In a compact document, the attribute block of a node (its entries
/// between angle brackets) stands right before the node's value.
pub proof fn lemma_block_before_value(f: TextFormatter, node: NodeView)
    requires
        has_block(node.attributes),
    ensures
        node_run(f, node).text == seq!['<' as u8] + compact_entries(
            node.attributes->0.value->Mapping_0,
            0,
        ) + seq!['>' as u8] + compact_value(node.value),
{
    lemma_compact_node(f, node);
}

/// Every compact document is valid UTF-8.
pub proof fn lemma_compact_utf8(node: NodeView)
    ensures
        valid_utf8(compact_node(node)),
    decreases node, 0nat,
{
    lemma_attributes_utf8(node.attributes);
    lemma_value_utf8(node.value);
    vstd::utf8::valid_utf8_concat(compact_attributes(node.attributes), compact_value(node.value));
}

/// What the compact formatter emits for a node can always be read as a
/// string.
pub proof fn lemma_compact_run_utf8(f: TextFormatter, node: NodeView)
    ensures
        node_run(f, node).accepted,
        valid_utf8(node_run(f, node).text),
{
    lemma_compact_node(f, node);
    lemma_compact_utf8(node);
}

/// A string between its quotes is valid UTF-8.
pub proof fn lemma_quoted_utf8(text: Seq<char>)
    ensures
        valid_utf8(quoted(text)),
{
    let quote = seq!['"' as u8];
    lemma_ascii_valid(quote);
    vstd::utf8::encode_utf8_valid_utf8(text);
    vstd::utf8::valid_utf8_concat(quote, encode_utf8(text));
    vstd::utf8::valid_utf8_concat(quote + encode_utf8(text), quote);
}

/// The compact text of an attribute block is valid UTF-8.
proof fn lemma_attributes_utf8(attributes: Option<Box<NodeView>>)
    ensures
        valid_utf8(compact_attributes(attributes)),
    decreases attributes, 0nat,
{
    match attributes {
        Some(holder) => match holder.value {
            ValueView::Mapping(entries) => {
                let opening = seq!['<' as u8];
                let closing = seq!['>' as u8];
                let inner = compact_entries(entries, 0);
                lemma_entries_utf8(entries, 0);
                lemma_ascii_valid(opening);
                lemma_ascii_valid(closing);
                vstd::utf8::valid_utf8_concat(opening, inner);
                vstd::utf8::valid_utf8_concat(opening + inner, closing);
            },
            _ => {
                lemma_ascii_valid(Seq::empty());
            },
        },
        None => {
            lemma_ascii_valid(Seq::empty());
        },
    }
}

/// The compact text of a value is valid UTF-8.
pub proof fn lemma_value_utf8(value: ValueView)
    ensures
        valid_utf8(compact_value(value)),
    decreases value, 0nat,
{
    match value {
        ValueView::Null => {
            lemma_ascii_valid(compact_value(value));
        },
        ValueView::Bool(b) => {
            lemma_ascii_valid(compact_value(value));
        },
        ValueView::Int64(i) => {
            lemma_integer_ascii(i as int);
            lemma_ascii_valid(compact_value(value));
        },
        ValueView::Uint64(u) => {
            lemma_integer_ascii(u as int);
            lemma_ascii_valid(compact_value(value));
        },
        ValueView::Double(text) => {
            vstd::utf8::encode_utf8_valid_utf8(text);
        },
        ValueView::String(text) => {
            lemma_quoted_utf8(text);
        },
        ValueView::List(items) => {
            let opening = seq!['[' as u8];
            let closing = seq![']' as u8];
            let inner = compact_items(items, 0);
            lemma_items_utf8(items, 0);
            lemma_ascii_valid(opening);
            lemma_ascii_valid(closing);
            vstd::utf8::valid_utf8_concat(opening, inner);
            vstd::utf8::valid_utf8_concat(opening + inner, closing);
        },
        ValueView::Mapping(entries) => {
            let opening = seq!['{' as u8];
            let closing = seq!['}' as u8];
            let inner = compact_entries(entries, 0);
            lemma_entries_utf8(entries, 0);
            lemma_ascii_valid(opening);
            lemma_ascii_valid(closing);
            vstd::utf8::valid_utf8_concat(opening, inner);
            vstd::utf8::valid_utf8_concat(opening + inner, closing);
        },
    }
}

/// The compact text of the elements of a list is valid UTF-8.
proof fn lemma_items_utf8(items: Seq<NodeView>, from: int)
    requires
        0 <= from <= items.len(),
    ensures
        valid_utf8(compact_items(items, from)),
    decreases items, items.len() - from,
{
    if from < items.len() {
        let head = separator(from == 0);
        let one = compact_node(items[from]);
        let rest = compact_items(items, from + 1);
        lemma_ascii_valid(head);
        lemma_compact_utf8(items[from]);
        lemma_items_utf8(items, from + 1);
        vstd::utf8::valid_utf8_concat(head, one);
        vstd::utf8::valid_utf8_concat(head + one, rest);
    } else {
        lemma_ascii_valid(Seq::empty());
    }
}

/// The compact text of the entries of a map is valid UTF-8.
proof fn lemma_entries_utf8(entries: Seq<(Seq<char>, NodeView)>, from: int)
    requires
        0 <= from <= entries.len(),
    ensures
        valid_utf8(compact_entries(entries, from)),
    decreases entries, entries.len() - from,
{
    if from < entries.len() {
        let head = separator(from == 0);
        let key = quoted(entries[from].0);
        let sign = seq!['=' as u8];
        let child = compact_node(entries[from].1);
        let rest = compact_entries(entries, from + 1);
        lemma_ascii_valid(head);
        lemma_quoted_utf8(entries[from].0);
        lemma_ascii_valid(sign);
        lemma_compact_utf8(entries[from].1);
        lemma_entries_utf8(entries, from + 1);
        assert(compact_entry(entries[from].0, entries[from].1) == key + sign + child);
        vstd::utf8::valid_utf8_concat(key, sign);
        vstd::utf8::valid_utf8_concat(key + sign, child);
        vstd::utf8::valid_utf8_concat(head, key + sign + child);
        vstd::utf8::valid_utf8_concat(head + (key + sign + child), rest);
    } else {
        lemma_ascii_valid(Seq::empty());
    }
}

} // verus!
